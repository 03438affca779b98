use vstd::prelude::*;
use crate::rich_text::{RichText, RichTextCode, Code, line_view, lines_view, line_width_spec};
use crate::char_width::{valid_widths, visible, visible_width};
use crate::wrap::{WrapState, wraps_out, all_wrap_lines, wrap_ranges_from, range_width, wraps_out_when_chars_fit};
use crate::plain_wrap::{chars_fit, widths_fit};
use crate::draw::{rich_widths_ok, rich_line_widths_ok, code_widths_ok, block_widths_v, line_widths_v};

verus! {

/// State while a rich text is wrapped: the lines so far, the columns of the
/// current line, the widest line counted, and whether a run met a
/// wrapping that never ends.
pub ghost struct WrapTextState {
    pub lines: Seq<Seq<Code>>,
    pub lw: nat,
    pub max: nat,
    pub stuck: bool,
}

pub open spec fn max_nat(a: nat, b: nat) -> nat {
    if a > b { a } else { b }
}

/// Adds a code to the last line.
pub open spec fn push_code(lines: Seq<Seq<Code>>, c: Code) -> Seq<Seq<Code>> {
    lines.update(lines.len() - 1, lines[lines.len() - 1].push(c))
}

/// One piece of a run broken by the wrapping: it ends its line, a new line
/// starts, and the line is counted for the width.
pub open spec fn piece_step(st: WrapTextState, t: Seq<char>, ws: Seq<i32>, p: (int, int)) -> WrapTextState {
    let w = visible_width(ws.subrange(p.0, p.1));
    let lw = st.lw + w;
    WrapTextState {
        lines: push_code(st.lines, Code::Text { text: t.subrange(p.0, p.1), width: w }).push(Seq::empty()),
        lw: 0,
        max: max_nat(st.max, lw),
        stuck: st.stuck,
    }
}

pub open spec fn pieces_run(st: WrapTextState, t: Seq<char>, ws: Seq<i32>, ps: Seq<(int, int)>, k: int) -> WrapTextState
    decreases k,
{
    if k <= 0 { st } else { piece_step(pieces_run(st, t, ws, ps, k - 1), t, ws, ps[k - 1]) }
}

/// One code of a line: a style change is kept; a text run that ends before
/// the width is kept; one that reaches it exactly ends the line (the line
/// is counted without the run); a wider one is wrapped, with the columns
/// of its line taken, into pieces that each end a line.
pub open spec fn wrap_code_step(st: WrapTextState, c: Code, ws: Seq<i32>, width: nat) -> WrapTextState {
    match c {
        Code::Text { text, width: tw } => {
            let nw = st.lw + tw;
            if nw < width {
                WrapTextState { lines: push_code(st.lines, c), lw: nw, ..st }
            } else if nw == width {
                WrapTextState {
                    lines: push_code(st.lines, c).push(Seq::empty()),
                    lw: 0,
                    max: max_nat(st.max, st.lw),
                    stuck: st.stuck,
                }
            } else {
                let start = WrapState { start: 0, prefix: st.lw };
                if wraps_out(text, ws, width, start) {
                    let ps = all_wrap_lines(text, ws, width, start);
                    pieces_run(st, text, ws, ps, ps.len() as int)
                } else {
                    WrapTextState { stuck: true, ..st }
                }
            }
        },
        _ => WrapTextState { lines: push_code(st.lines, c), ..st },
    }
}

pub open spec fn wrap_line_run(st: WrapTextState, line: Seq<Code>, wl: Seq<Seq<i32>>, width: nat, n: int) -> WrapTextState
    decreases n,
{
    if n <= 0 { st } else { wrap_code_step(wrap_line_run(st, line, wl, width, n - 1), line[n - 1], wl[n - 1], width) }
}

/// The first `k` lines wrapped, each starting a new line.
pub open spec fn wrap_lines_run(lines: Seq<Seq<Code>>, wss: Seq<Seq<Seq<i32>>>, width: nat, k: int) -> WrapTextState
    decreases k,
{
    if k <= 0 {
        WrapTextState { lines: Seq::empty(), lw: 0, max: 0, stuck: false }
    } else {
        let st = wrap_lines_run(lines, wss, width, k - 1);
        let st1 = WrapTextState { lines: st.lines.push(Seq::empty()), lw: 0, ..st };
        wrap_line_run(st1, lines[k - 1], wss[k - 1], width, lines[k - 1].len() as int)
    }
}

/// A rich text wrapped to `width` columns.
pub open spec fn rich_wrap_spec(lines: Seq<Seq<Code>>, wss: Seq<Seq<Seq<i32>>>, width: nat) -> WrapTextState {
    wrap_lines_run(lines, wss, width, lines.len() as int)
}

proof fn lemma_pieces_keep(st: WrapTextState, t: Seq<char>, ws: Seq<i32>, ps: Seq<(int, int)>, k: int)
    ensures
        pieces_run(st, t, ws, ps, k).stuck == st.stuck,
    decreases k,
{
    if k > 0 {
        lemma_pieces_keep(st, t, ws, ps, k - 1);
    }
}

proof fn lemma_line_not_stuck(st: WrapTextState, line: Seq<Code>, wl: Seq<Seq<i32>>, width: nat, n: int)
    requires
        !st.stuck,
        n <= line.len(),
        rich_line_widths_ok(line, wl),
        forall|c: int, j: int| 0 <= c < wl.len() && line[c] is Text && 0 <= j < wl[c].len()
            ==> visible(#[trigger] wl[c][j]) <= width,
    ensures
        !wrap_line_run(st, line, wl, width, n).stuck,
    decreases n,
{
    if n > 0 {
        lemma_line_not_stuck(st, line, wl, width, n - 1);
        let s = wrap_line_run(st, line, wl, width, n - 1);
        assert(code_widths_ok(line[n - 1], wl[n - 1]));
        match line[n - 1] {
            Code::Text { text, width: tw } => {
                let start = WrapState { start: 0, prefix: s.lw };
                wraps_out_when_chars_fit(text, wl[n - 1], width, start);
                lemma_pieces_keep(s, text, wl[n - 1], all_wrap_lines(text, wl[n - 1], width, start),
                    all_wrap_lines(text, wl[n - 1], width, start).len() as int);
            },
            _ => {},
        }
    }
}

/// Wrapping a rich text to at least two columns always ends.
pub proof fn rich_wrap_ends_when_wide(lines: Seq<Seq<Code>>, wss: Seq<Seq<Seq<i32>>>, width: nat, k: int)
    requires
        width >= 2,
        rich_widths_ok(lines, wss),
        k <= lines.len(),
    ensures
        !wrap_lines_run(lines, wss, width, k).stuck,
    decreases k,
{
    if k > 0 {
        rich_wrap_ends_when_wide(lines, wss, width, k - 1);
        assert(rich_line_widths_ok(lines[k - 1], wss[k - 1]));
        assert forall|c: int, j: int| 0 <= c < wss[k - 1].len() && lines[k - 1][c] is Text && 0 <= j < wss[k - 1][c].len()
            implies visible(#[trigger] wss[k - 1][c][j]) <= width by {
            assert(code_widths_ok(lines[k - 1][c], wss[k - 1][c]));
            assert(valid_widths(wss[k - 1][c]));
            assert(-1 <= wss[k - 1][c][j] <= 2);
        }
        let st = wrap_lines_run(lines, wss, width, k - 1);
        lemma_line_not_stuck(WrapTextState { lines: st.lines.push(Seq::empty()), lw: 0, ..st },
            lines[k - 1], wss[k - 1], width, lines[k - 1].len() as int);
    }
}

/// Wrapping a rich text ends where no character is wider than a line.
pub proof fn rich_wrap_ends_when_chars_fit(lines: Seq<Seq<Code>>, wss: Seq<Seq<Seq<i32>>>, width: nat, k: int)
    requires
        chars_fit(wss, width),
        rich_widths_ok(lines, wss),
        k <= lines.len(),
    ensures
        !wrap_lines_run(lines, wss, width, k).stuck,
    decreases k,
{
    if k > 0 {
        rich_wrap_ends_when_chars_fit(lines, wss, width, k - 1);
        assert(rich_line_widths_ok(lines[k - 1], wss[k - 1]));
        assert forall|c: int, j: int| 0 <= c < wss[k - 1].len() && lines[k - 1][c] is Text && 0 <= j < wss[k - 1][c].len()
            implies visible(#[trigger] wss[k - 1][c][j]) <= width by {
            assert(visible(wss[k - 1][c][j]) <= width);
        }
        let st = wrap_lines_run(lines, wss, width, k - 1);
        lemma_line_not_stuck(WrapTextState { lines: st.lines.push(Seq::empty()), lw: 0, ..st },
            lines[k - 1], wss[k - 1], width, lines[k - 1].len() as int);
    }
}

/// Adds a code to the last line.
fn push_last(lines: &mut Vec<Vec<RichTextCode>>, c: RichTextCode)
    requires
        old(lines)@.len() > 0,
    ensures
        lines_view(final(lines)@) == push_code(lines_view(old(lines)@), c@),
        final(lines)@.len() == old(lines)@.len(),
{
    let ghost v = c@;
    let mut last = lines.pop().unwrap();
    let ghost l0 = last@;
    last.push(c);
    lines.push(last);
    proof {
        assert(line_view(last@) =~= line_view(l0).push(v));
        assert(lines_view(lines@) =~= push_code(lines_view(old(lines)@), v));
    }
}

/// Starts a new, empty line.
fn push_line(lines: &mut Vec<Vec<RichTextCode>>)
    ensures
        lines_view(final(lines)@) == lines_view(old(lines)@).push(Seq::empty()),
        final(lines)@.len() == old(lines)@.len() + 1,
{
    lines.push(Vec::new());
    proof {
        assert(line_view(Seq::<RichTextCode>::empty()) =~= Seq::<Code>::empty());
        assert(lines_view(lines@) =~= lines_view(old(lines)@).push(Seq::empty()));
    }
}

/// Wraps one text run that does not fit, as [`wrap_code_step`] says.
fn wrap_run(lines: &mut Vec<Vec<RichTextCode>>, lw: &mut usize, max: &mut usize, text: &str, ws: &[i32], width: usize)
    requires
        old(lines)@.len() > 0,
        ws@.len() == text@.len(),
        valid_widths(ws@),
        *old(lw) <= width,
        wraps_out(text@, ws@, width as nat, WrapState { start: 0, prefix: *old(lw) as nat }),
    ensures
        ({
            let ps = all_wrap_lines(text@, ws@, width as nat, WrapState { start: 0, prefix: *old(lw) as nat });
            let st = pieces_run(WrapTextState { lines: lines_view(old(lines)@), lw: *old(lw) as nat, max: *old(max) as nat, stuck: false },
                text@, ws@, ps, ps.len() as int);
            &&& lines_view(final(lines)@) == st.lines
            &&& *final(lw) == st.lw
            &&& *final(max) == st.max
        }),
        final(lines)@.len() > 0,
        *final(lw) <= width,
        *final(lw) == 0 || *final(lw) == *old(lw),
{
    let ghost t = text@;
    let ghost w = width as nat;
    let ghost start = WrapState { start: 0, prefix: *old(lw) as nat };
    let ghost ps = all_wrap_lines(t, ws@, w, start);
    let ghost st0 = WrapTextState { lines: lines_view(lines@), lw: *lw as nat, max: *max as nat, stuck: false };
    let ranges = wrap_ranges_from(text, ws, width, *lw);
    proof {
        let k0 = choose|k: nat| #[trigger] crate::wrap::wrap_iter(t, ws@, w, start, k).start >= t.len();
        crate::wrap::first_wrap_line_fits(t, ws@, w, start, k0);
        assert(ps == crate::wrap::wrap_lines(t, ws@, w, start, k0));
    }
    let ghost lw0 = *lw;
    let chars = crate::text::to_chars(text);
    let mut k: usize = 0;
    while k < ranges.len()
        invariant
            k <= ranges@.len(),
            ranges@.len() == ps.len(),
            ps == all_wrap_lines(t, ws@, w, start),
            forall|i: int| 0 <= i < ranges@.len() ==> (#[trigger] ranges@[i]).0 as int == ps[i].0 && ranges@[i].1 as int == ps[i].1,
            forall|i: int| 0 <= i < ranges@.len() ==> (#[trigger] ranges@[i]).0 <= ranges@[i].1 <= t.len(),
            chars@ == t,
            t == text@,
            ws@.len() == t.len(),
            valid_widths(ws@),
            w == width as nat,
            *lw <= width,
            k == 0 ==> *lw == lw0,
            k > 0 ==> *lw == 0,
            ps.len() > 0 ==> ps[0].0 == 0 && lw0 + visible_width(ws@.subrange(0, ps[0].1)) <= w,
            lines@.len() > 0,
            ({
                let st = pieces_run(st0, t, ws@, ps, k as int);
                &&& lines_view(lines@) == st.lines
                &&& *lw == st.lw
                &&& *max == st.max
            }),
        decreases ranges.len() - k,
    {
        let (a, b) = ranges[k];
        proof {
            assert(ranges@[k as int].0 as int == ps[k as int].0);
        }
        let pw = range_width(ws, a, b);
        proof {
            crate::char_width::lemma_prefix_width_bound(ws@, ws@.len() as int);
            crate::char_width::lemma_visible_width_bound(ws@.subrange(a as int, b as int));
        }
        let piece = crate::text::string_from_chars(chars.as_slice(), a, b);
        proof {
            if k == 0 {
                assert(ranges@[0].1 as int == ps[0].1);
            }
        }
        let nlw = *lw + pw;
        push_last(lines, RichTextCode::Text { text: piece, width: pw });
        push_line(lines);
        if nlw > *max {
            *max = nlw;
        }
        *lw = 0;
        k += 1;
    }
}

/// The runs of the first `k` codes of a line are no wider than the line.
proof fn lemma_line_width_take_bound(line: Seq<Code>, k: int)
    requires
        0 <= k <= line.len(),
    ensures
        line_width_spec(line.take(k)) <= line_width_spec(line),
    decreases line.len() - k,
{
    if k < line.len() {
        lemma_line_width_take_bound(line, k + 1);
        assert(line.take(k + 1).drop_last() =~= line.take(k));
    } else {
        assert(line.take(k) =~= line);
    }
}

impl RichText {
    /// This text wrapped to `width` columns: runs that fit are kept, a run
    /// that reaches the width ends its line, a wider one is broken between
    /// words (see [`wrap_code_step`]); `widths` gives the widths of the
    /// characters of every run. The width of the result counts only the
    /// lines that were ended by the wrapping.
    pub fn wrap(&self, width: usize, widths: &[Vec<Vec<i32>>]) -> (r: RichText)
        requires
            rich_widths_ok(self.lines_v(), block_widths_v(widths@)),
            crate::rich_layout::widths_fit(self.lines_v()),
            !rich_wrap_spec(self.lines_v(), block_widths_v(widths@), width as nat).stuck,
        ensures
            r.lines_v() == rich_wrap_spec(self.lines_v(), block_widths_v(widths@), width as nat).lines,
            r.width == rich_wrap_spec(self.lines_v(), block_widths_v(widths@), width as nat).max,
    {
        let ghost lv = self.lines_v();
        let ghost wv = block_widths_v(widths@);
        let mut out: Vec<Vec<RichTextCode>> = Vec::new();
        let mut max: usize = 0;
        let mut li: usize = 0;
        proof {
            assert(lines_view(out@) =~= Seq::<Seq<Code>>::empty());
        }
        while li < self.lines.len()
            invariant
                li <= self.lines@.len(),
                lv == self.lines_v(),
                lv == lines_view(self.lines@),
                wv == block_widths_v(widths@),
                rich_widths_ok(lv, wv),
                crate::rich_layout::widths_fit(lv),
                !rich_wrap_spec(lv, wv, width as nat).stuck,
                ({
                    let st = wrap_lines_run(lv, wv, width as nat, li as int);
                    &&& lines_view(out@) == st.lines
                    &&& max == st.max
                    &&& !st.stuck
                }),
            decreases self.lines.len() - li,
        {
            let line = &self.lines[li];
            let wl = &widths[li];
            proof {
                assert(rich_line_widths_ok(lv[li as int], wv[li as int]));
                assert(lv[li as int] == line_view(line@));
                assert(wv[li as int] == line_widths_v(wl@));
                if wrap_lines_run(lv, wv, width as nat, li + 1).stuck {
                    lemma_stuck_stays(lv, wv, width as nat, li + 1, lv.len() as int);
                }
            }
            let ghost st_prev = wrap_lines_run(lv, wv, width as nat, li as int);
            push_line(&mut out);
            let mut lw: usize = 0;
            proof {
                assert(lv[li as int].take(0).len() == 0);
            }
            let ghost st1 = WrapTextState { lines: st_prev.lines.push(Seq::empty()), lw: 0, ..st_prev };
            let mut c: usize = 0;
            while c < line.len()
                invariant
                    c <= line@.len(),
                    lv[li as int] == line_view(line@),
                    wv[li as int] == line_widths_v(wl@),
                    rich_line_widths_ok(lv[li as int], wv[li as int]),
                    0 <= li < lv.len(),
                    line_width_spec(lv[li as int]) <= usize::MAX,
                    lw <= line_width_spec(lv[li as int].take(c as int)),
                    out@.len() > 0,
                    lw <= width,
                    !wrap_line_run(st1, lv[li as int], wv[li as int], width as nat, lv[li as int].len() as int).stuck,
                    ({
                        let st = wrap_line_run(st1, lv[li as int], wv[li as int], width as nat, c as int);
                        &&& lines_view(out@) == st.lines
                        &&& lw == st.lw
                        &&& max == st.max
                        &&& !st.stuck
                    }),
                decreases line.len() - c,
            {
                proof {
                    assert(code_widths_ok(lv[li as int][c as int], wv[li as int][c as int]));
                    assert(lv[li as int][c as int] == line@[c as int]@);
                    assert(wv[li as int][c as int] == wl@[c as int]@);
                    if wrap_line_run(st1, lv[li as int], wv[li as int], width as nat, c + 1).stuck {
                        lemma_line_stuck_stays(st1, lv[li as int], wv[li as int], width as nat, c + 1, lv[li as int].len() as int);
                    }
                }
                proof {
                    let l = lv[li as int];
                    assert(l.take(c + 1).drop_last() =~= l.take(c as int));
                    lemma_line_width_take_bound(l, c + 1);
                }
                let code = &line[c];
                match code {
                    RichTextCode::Text { text, width: tw } => {
                        let nw = lw + *tw;
                        if nw < width {
                            push_last(&mut out, code.duplicate());
                            lw = nw;
                        } else if nw == width {
                            push_last(&mut out, code.duplicate());
                            push_line(&mut out);
                            if lw > max {
                                max = lw;
                            }
                            lw = 0;
                        } else {
                            wrap_run(&mut out, &mut lw, &mut max, text.as_str(), wl[c].as_slice(), width);
                        }
                    },
                    _ => {
                        push_last(&mut out, code.duplicate());
                    },
                }
                c += 1;
            }
            li += 1;
        }
        RichText { lines: out, width: max }
    }
}

proof fn lemma_line_stuck_stays(st: WrapTextState, line: Seq<Code>, wl: Seq<Seq<i32>>, width: nat, a: int, b: int)
    requires
        0 <= a <= b,
        wrap_line_run(st, line, wl, width, a).stuck,
    ensures
        wrap_line_run(st, line, wl, width, b).stuck,
    decreases b - a,
{
    if a < b {
        lemma_line_stuck_stays(st, line, wl, width, a, b - 1);
        let s = wrap_line_run(st, line, wl, width, b - 1);
        match line[b - 1] {
            Code::Text { text, width: tw } => {
                let start = WrapState { start: 0, prefix: s.lw };
                lemma_pieces_keep(s, text, wl[b - 1], all_wrap_lines(text, wl[b - 1], width, start),
                    all_wrap_lines(text, wl[b - 1], width, start).len() as int);
            },
            _ => {},
        }
    }
}

proof fn lemma_stuck_stays(lines: Seq<Seq<Code>>, wss: Seq<Seq<Seq<i32>>>, width: nat, a: int, b: int)
    requires
        0 <= a <= b,
        wrap_lines_run(lines, wss, width, a).stuck,
    ensures
        wrap_lines_run(lines, wss, width, b).stuck,
    decreases b - a,
{
    if a < b {
        lemma_stuck_stays(lines, wss, width, a, b - 1);
        let st = wrap_lines_run(lines, wss, width, b - 1);
        lemma_line_stuck_stays(WrapTextState { lines: st.lines.push(Seq::empty()), lw: 0, ..st },
            lines[b - 1], wss[b - 1], width, 0, lines[b - 1].len() as int);
    }
}

impl RichText {
    /// This text wrapped to `width` columns (see [`RichText::wrap`]) where
    /// the wrapping is sure to end, that is where no character is wider
    /// than a line; `None` where one is.
    pub fn wrap_when_it_ends(&self, width: usize, widths: &[Vec<Vec<i32>>]) -> (r: Option<RichText>)
        requires
            rich_widths_ok(self.lines_v(), block_widths_v(widths@)),
            crate::rich_layout::widths_fit(self.lines_v()),
        ensures
            r is None <==> !chars_fit(block_widths_v(widths@), width as nat),
            r matches Some(t) ==> t.lines_v() == rich_wrap_spec(self.lines_v(), block_widths_v(widths@), width as nat).lines
                && t.width == rich_wrap_spec(self.lines_v(), block_widths_v(widths@), width as nat).max,
    {
        if !widths_fit(widths, width) {
            return None;
        }
        proof {
            rich_wrap_ends_when_chars_fit(self.lines_v(), block_widths_v(widths@), width as nat, self.lines_v().len() as int);
        }
        Some(self.wrap(width, widths))
    }
}

} // verus!
