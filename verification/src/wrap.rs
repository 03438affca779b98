use vstd::prelude::*;
use crate::text::{unicode_alphabetic, unicode_whitespace, is_alphabetic, is_whitespace, to_chars};
use crate::char_width::{
    valid_widths, visible, visible_width, lemma_visible_width_push, lemma_visible_width_bound,
};

verus! {

/// End of the word that starts at `j`: the first character from `j` on
/// that is neither alphabetic nor `_`, or the end of the text.
pub open spec fn wrap_point(t: Seq<char>, j: int) -> int
    decreases t.len() - j,
{
    if j >= t.len() {
        t.len() as int
    } else if !(unicode_alphabetic(t[j]) || t[j] == '_') {
        j
    } else {
        wrap_point(t, j + 1)
    }
}

/// The first character from `j` on that is not white space, or the end.
pub open spec fn trim_point(t: Seq<char>, j: int) -> int
    decreases t.len() - j,
{
    if j >= t.len() {
        t.len() as int
    } else if !unicode_whitespace(t[j]) {
        j
    } else {
        trim_point(t, j + 1)
    }
}

pub proof fn lemma_wrap_point_bounds(t: Seq<char>, j: int)
    requires
        0 <= j <= t.len(),
    ensures
        j <= wrap_point(t, j) <= t.len(),
    decreases t.len() - j,
{
    if j < t.len() && (unicode_alphabetic(t[j]) || t[j] == '_') {
        lemma_wrap_point_bounds(t, j + 1);
    }
}

pub proof fn lemma_trim_point_bounds(t: Seq<char>, j: int)
    requires
        0 <= j <= t.len(),
    ensures
        j <= trim_point(t, j) <= t.len(),
    decreases t.len() - j,
{
    if j < t.len() && unicode_whitespace(t[j]) {
        lemma_trim_point_bounds(t, j + 1);
    }
}

/// End of the piece that is measured at `j`: a word, or a single other
/// character.
pub open spec fn piece_end(t: Seq<char>, j: int) -> int {
    if wrap_point(t, j) == j { j + 1 } else { wrap_point(t, j) }
}

/// A word wider than a whole line, starting at `prev`, is broken before
/// the first character that does not fit any more (`lw` columns are used
/// up to `j`); a line feed met first ends the line there.  The result is
/// the end of the line and where the rest of the text starts, after the
/// white space that follows.
pub open spec fn long_break(t: Seq<char>, ws: Seq<i32>, prev: int, j: int, lw: nat, w: nat) -> (int, int)
    decreases t.len() - j,
{
    if j < 0 || j >= t.len() {
        (prev, trim_point(t, prev))
    } else if t[j] == '\n' {
        (j, j + 1)
    } else if lw + visible(ws[j]) > w {
        (j, trim_point(t, j))
    } else {
        long_break(t, ws, prev, j + 1, lw + visible(ws[j]), w)
    }
}

/// The end of the line that continues at `idx` with `lw` columns used,
/// and where the text after it starts: words are added while they fit in
/// `w` columns; a line feed ends the line and is dropped; where a word
/// does not fit, the line ends before it and the white space after the
/// break is dropped, except that a word that starts the line is broken
/// (see [`long_break`]).
pub open spec fn scan_line(t: Seq<char>, ws: Seq<i32>, idx: int, lw: nat, w: nat) -> (int, int)
    decreases t.len() - idx,
{
    if idx < 0 || idx >= t.len() {
        (t.len() as int, t.len() as int)
    } else if t[idx] == '\n' {
        (idx, idx + 1)
    } else {
        let k = piece_end(t, idx);
        let ww = visible_width(ws.subrange(idx, k));
        proof {
            lemma_wrap_point_bounds(t, idx);
        }
        if lw + ww <= w {
            scan_line(t, ws, k, lw + ww, w)
        } else if lw == 0 {
            long_break(t, ws, idx, idx, 0, w)
        } else {
            (idx, trim_point(t, idx))
        }
    }
}

/// Position in the text being wrapped: where the rest starts and how many
/// columns of the first line are already taken.
pub ghost struct WrapState {
    pub start: int,
    pub prefix: nat,
}

/// The next line: it runs from the start to the first number, and the
/// rest starts at the second; `None` once the text is used up.
pub open spec fn wrap_next(t: Seq<char>, ws: Seq<i32>, w: nat, st: WrapState) -> Option<(int, int)> {
    if st.start < 0 || st.start >= t.len() {
        None
    } else {
        Some(scan_line(t, ws, st.start, st.prefix, w))
    }
}

/// The state after one line is taken.
pub open spec fn wrap_step(t: Seq<char>, ws: Seq<i32>, w: nat, st: WrapState) -> WrapState {
    match wrap_next(t, ws, w, st) {
        None => st,
        Some((_, rest)) => WrapState { start: rest, prefix: 0 },
    }
}

/// The state after `k` lines are taken.
pub open spec fn wrap_iter(t: Seq<char>, ws: Seq<i32>, w: nat, st: WrapState, k: nat) -> WrapState
    decreases k,
{
    if k == 0 {
        st
    } else {
        wrap_step(t, ws, w, wrap_iter(t, ws, w, st, (k - 1) as nat))
    }
}

/// The first `k` lines, as ranges of the text.
pub open spec fn wrap_lines(t: Seq<char>, ws: Seq<i32>, w: nat, st: WrapState, k: nat) -> Seq<(int, int)>
    decreases k,
{
    if k == 0 {
        seq![]
    } else {
        let prev = wrap_lines(t, ws, w, st, (k - 1) as nat);
        let s = wrap_iter(t, ws, w, st, (k - 1) as nat);
        match wrap_next(t, ws, w, s) {
            None => prev,
            Some((end, _)) => prev.push((s.start, end)),
        }
    }
}

/// The text is used up after finitely many lines.
pub open spec fn wraps_out(t: Seq<char>, ws: Seq<i32>, w: nat, st: WrapState) -> bool {
    exists|k: nat| #[trigger] wrap_iter(t, ws, w, st, k).start >= t.len()
}

/// Every line, once the text is used up.
pub open spec fn all_wrap_lines(t: Seq<char>, ws: Seq<i32>, w: nat, st: WrapState) -> Seq<(int, int)> {
    wrap_lines(t, ws, w, st, choose|k: nat| #[trigger] wrap_iter(t, ws, w, st, k).start >= t.len())
}

/// Once the text is used up, further steps change nothing.
pub proof fn lemma_wrap_done_stays(t: Seq<char>, ws: Seq<i32>, w: nat, st: WrapState, j: nat, k: nat)
    requires
        wrap_iter(t, ws, w, st, j).start >= t.len(),
        j <= k,
    ensures
        wrap_iter(t, ws, w, st, k) == wrap_iter(t, ws, w, st, j),
        wrap_lines(t, ws, w, st, k) == wrap_lines(t, ws, w, st, j),
    decreases k - j,
{
    if j < k {
        lemma_wrap_done_stays(t, ws, w, st, j, (k - 1) as nat);
    }
}

/// Where the text is used up after `k` lines, those are all the lines.
pub proof fn lemma_all_wrap_lines(t: Seq<char>, ws: Seq<i32>, w: nat, st: WrapState, k: nat)
    requires
        wrap_iter(t, ws, w, st, k).start >= t.len(),
    ensures
        all_wrap_lines(t, ws, w, st) == wrap_lines(t, ws, w, st, k),
{
    let k0 = choose|k: nat| #[trigger] wrap_iter(t, ws, w, st, k).start >= t.len();
    assert(wrap_iter(t, ws, w, st, k).start >= t.len());
    if k0 <= k {
        lemma_wrap_done_stays(t, ws, w, st, k0, k);
    } else {
        lemma_wrap_done_stays(t, ws, w, st, k, k0);
    }
}

/// Where the text is used up after `k0` lines and not after `j`, `j` is
/// less than `k0`.
pub proof fn lemma_wrap_before_done(t: Seq<char>, ws: Seq<i32>, w: nat, st: WrapState, j: nat, k0: nat)
    requires
        wrap_iter(t, ws, w, st, k0).start >= t.len(),
        wrap_iter(t, ws, w, st, j).start < t.len(),
    ensures
        j < k0,
{
    if j >= k0 {
        lemma_wrap_done_stays(t, ws, w, st, k0, j);
    }
}

/// End of the word that starts at character `index` of `text`; see
/// [`wrap_point`].
pub fn find_wrap_point(text: &[char], index: usize) -> (r: usize)
    requires
        index <= text@.len(),
    ensures
        r == wrap_point(text@, index as int),
{
    let mut j = index;
    while j < text.len()
        invariant
            index <= j <= text@.len(),
            wrap_point(text@, index as int) == wrap_point(text@, j as int),
        decreases text.len() - j,
    {
        let c = text[j];
        if !(is_alphabetic(c) || c == '_') {
            return j;
        }
        j += 1;
    }
    j
}

/// The first character from `j` on that is not white space.
fn find_trim_point(text: &[char], j: usize) -> (r: usize)
    requires
        j <= text@.len(),
    ensures
        r == trim_point(text@, j as int),
        j <= r <= text@.len(),
{
    proof {
        lemma_trim_point_bounds(text@, j as int);
    }
    let mut k = j;
    while k < text.len()
        invariant
            j <= k <= text@.len(),
            trim_point(text@, j as int) == trim_point(text@, k as int),
        decreases text.len() - k,
    {
        if !is_whitespace(text[k]) {
            return k;
        }
        k += 1;
    }
    k
}

/// Columns taken by characters `a..b`.
pub fn range_width(ws: &[i32], a: usize, b: usize) -> (r: usize)
    requires
        a <= b <= ws@.len(),
        valid_widths(ws@),
    ensures
        r == visible_width(ws@.subrange(a as int, b as int)),
        r <= 2 * (b - a),
{
    let mut total: usize = 0;
    let mut i = a;
    while i < b
        invariant
            a <= i <= b <= ws@.len(),
            valid_widths(ws@),
            total == visible_width(ws@.subrange(a as int, i as int)),
            total <= 2 * (i - a),
        decreases b - i,
    {
        proof {
            assert(ws@.subrange(a as int, i + 1) =~= ws@.subrange(a as int, i as int).push(ws@[i as int]));
            lemma_visible_width_push(ws@.subrange(a as int, i as int), ws@[i as int]);
        }
        let w = ws[i];
        if w > 0 {
            total += w as usize;
        }
        i += 1;
    }
    total
}

/// Splits text into lines of at most `wrap_width` columns, breaking
/// between words where it can; the first line may start with
/// `prefix_width` columns already taken.
pub struct LineWrapper<'a> {
    text: &'a str,
    chars: Vec<char>,
    widths: &'a [i32],
    start: usize,
    prefix_width: usize,
    wrap_width: usize,
}

impl<'a> LineWrapper<'a> {
    /// The whole text, as characters.
    pub closed spec fn chars_v(&self) -> Seq<char> {
        self.chars@
    }

    /// The widths of the characters.
    pub closed spec fn widths_v(&self) -> Seq<i32> {
        self.widths@
    }

    /// Where the text not yet taken starts, and the columns taken of its
    /// first line.
    pub closed spec fn state(&self) -> WrapState {
        WrapState { start: self.start as int, prefix: self.prefix_width as nat }
    }

    pub closed spec fn width_limit(&self) -> nat {
        self.wrap_width as nat
    }

    pub closed spec fn inv(&self) -> bool {
        &&& self.chars@ == self.text@
        &&& self.widths@.len() == self.chars@.len()
        &&& valid_widths(self.widths@)
        &&& self.start <= self.chars@.len()
    }

    pub fn new(text: &'a str, widths: &'a [i32], wrap_width: usize) -> (r: Self)
        requires
            widths@.len() == text@.len(),
            valid_widths(widths@),
        ensures
            r.inv(),
            r.chars_v() == text@,
            r.widths_v() == widths@,
            r.state() == (WrapState { start: 0, prefix: 0 }),
            r.width_limit() == wrap_width,
    {
        Self::with_prefix_width(text, widths, wrap_width, 0)
    }

    pub fn with_prefix_width(text: &'a str, widths: &'a [i32], wrap_width: usize, prefix_width: usize) -> (r: Self)
        requires
            widths@.len() == text@.len(),
            valid_widths(widths@),
        ensures
            r.inv(),
            r.chars_v() == text@,
            r.widths_v() == widths@,
            r.state() == (WrapState { start: 0, prefix: prefix_width as nat }),
            r.width_limit() == wrap_width,
    {
        let chars = to_chars(text);
        LineWrapper { text, chars, widths, start: 0, prefix_width, wrap_width }
    }

    /// The text not yet taken.
    pub fn text(&self) -> (r: &'a str)
        requires
            self.inv(),
        ensures
            r@ == self.chars_v().skip(self.state().start),
    {
        let r = self.text.substring_char(self.start, self.chars.len());
        assert(r@ =~= self.chars_v().skip(self.state().start));
        r
    }

    pub fn prefix_width(&self) -> (r: usize)
        ensures
            r == self.state().prefix,
    {
        self.prefix_width
    }

    pub fn wrap_width(&self) -> (r: usize)
        ensures
            r == self.width_limit(),
    {
        self.wrap_width
    }

    /// Takes the next line; see [`wrap_next`].  The line is returned as
    /// the range of characters it covers.
    pub fn next_range(&mut self) -> (r: Option<(usize, usize)>)
        requires
            old(self).inv(),
        ensures
            final(self).inv(),
            final(self).chars_v() == old(self).chars_v(),
            final(self).widths_v() == old(self).widths_v(),
            final(self).width_limit() == old(self).width_limit(),
            final(self).state() == wrap_step(old(self).chars_v(), old(self).widths_v(), old(self).width_limit(), old(self).state()),
            match wrap_next(old(self).chars_v(), old(self).widths_v(), old(self).width_limit(), old(self).state()) {
                None => r is None,
                Some((end, _)) => r matches Some((a, b)) && a == old(self).state().start && b == end,
            },
    {
        let ghost t = self.chars@;
        let ghost ws = self.widths@;
        let n = self.chars.len();
        if self.start >= n {
            return None;
        }
        let s = self.start;
        let w = self.wrap_width;
        let mut idx = s;
        let mut lw = self.prefix_width;
        loop
            invariant
                self.inv(),
                t == self.chars@,
                ws == self.widths@,
                self.chars@ == old(self).chars@,
                self.widths@ == old(self).widths@,
                self.prefix_width == old(self).prefix_width,
                self.wrap_width == old(self).wrap_width,
                self.start == old(self).start,
                n == t.len(),
                s == self.start,
                w == self.wrap_width,
                s < n,
                s <= idx <= n,
                scan_line(t, ws, s as int, self.prefix_width as nat, w as nat) == scan_line(t, ws, idx as int, lw as nat, w as nat),
            decreases n - idx,
        {
            if idx == n {
                assert(scan_line(t, ws, idx as int, lw as nat, w as nat) == (n as int, n as int));
                assert(wrap_next(t, ws, w as nat, old(self).state()) == Some((n as int, n as int)));
                self.start = n;
                self.prefix_width = 0;
                return Some((s, n));
            }
            if self.chars[idx] == '\n' {
                self.start = idx + 1;
                self.prefix_width = 0;
                return Some((s, idx));
            }
            let prev = idx;
            proof {
                lemma_wrap_point_bounds(t, idx as int);
            }
            idx = find_wrap_point(self.chars.as_slice(), idx);
            if idx == prev {
                idx += 1;
            }
            let ww = range_width(self.widths, prev, idx);
            if lw <= w && ww <= w - lw {
                lw += ww;
            } else {
                if lw == 0 {
                    let (end, rest) = long_break_exec(self.chars.as_slice(), self.widths, prev, w);
                    self.start = rest;
                    self.prefix_width = 0;
                    return Some((s, end));
                }
                let rest = find_trim_point(self.chars.as_slice(), prev);
                self.start = rest;
                self.prefix_width = 0;
                return Some((s, prev));
            }
        }
    }

    /// Takes the next line; see [`wrap_next`].
    pub fn next(&mut self) -> (r: Option<&'a str>)
        requires
            old(self).inv(),
        ensures
            final(self).inv(),
            final(self).chars_v() == old(self).chars_v(),
            final(self).widths_v() == old(self).widths_v(),
            final(self).width_limit() == old(self).width_limit(),
            final(self).state() == wrap_step(old(self).chars_v(), old(self).widths_v(), old(self).width_limit(), old(self).state()),
            match wrap_next(old(self).chars_v(), old(self).widths_v(), old(self).width_limit(), old(self).state()) {
                None => r is None,
                Some((end, _)) => r matches Some(l) && l@ == old(self).chars_v().subrange(old(self).state().start, end),
            },
    {
        match self.next_range() {
            None => None,
            Some((a, b)) => {
                proof {
                    lemma_scan_line_bounds(self.chars@, self.widths@, a as int, old(self).prefix_width as nat, self.wrap_width as nat);
                }
                Some(self.text.substring_char(a, b))
            },
        }
    }
}

/// Breaks a word wider than a line that starts at `prev`; see
/// [`long_break`].
fn long_break_exec(t: &[char], ws: &[i32], prev: usize, w: usize) -> (r: (usize, usize))
    requires
        prev < t@.len(),
        ws@.len() == t@.len(),
        valid_widths(ws@),
    ensures
        (r.0 as int, r.1 as int) == long_break(t@, ws@, prev as int, prev as int, 0, w as nat),
        prev <= r.0 <= r.1 <= t@.len(),
{
    proof {
        lemma_long_break_bounds(t@, ws@, prev as int, prev as int, 0, w as nat);
    }
    let mut j = prev;
    let mut lw: usize = 0;
    while j < t.len()
        invariant
            prev <= j <= t@.len(),
            ws@.len() == t@.len(),
            lw <= w,
            long_break(t@, ws@, prev as int, prev as int, 0, w as nat) == long_break(t@, ws@, prev as int, j as int, lw as nat, w as nat),
        decreases t.len() - j,
    {
        if t[j] == '\n' {
            return (j, j + 1);
        }
        let cw0 = ws[j];
        let cw: usize = if cw0 > 0 { cw0 as usize } else { 0 };
        if cw > w - lw {
            let rest = find_trim_point(t, j);
            return (j, rest);
        }
        lw += cw;
        j += 1;
    }
    let rest = find_trim_point(t, prev);
    (prev, rest)
}

/// A line wrapper for `text` with no columns taken yet.
pub fn wrap<'a>(text: &'a str, widths: &'a [i32], wrap_width: usize) -> (r: LineWrapper<'a>)
    requires
        widths@.len() == text@.len(),
        valid_widths(widths@),
    ensures
        r.inv(),
        r.chars_v() == text@,
        r.widths_v() == widths@,
        r.state() == (WrapState { start: 0, prefix: 0 }),
        r.width_limit() == wrap_width,
{
    LineWrapper::new(text, widths, wrap_width)
}

pub proof fn lemma_long_break_bounds(t: Seq<char>, ws: Seq<i32>, prev: int, j: int, lw: nat, w: nat)
    requires
        0 <= prev <= j <= t.len(),
    ensures
        prev <= long_break(t, ws, prev, j, lw, w).0 <= long_break(t, ws, prev, j, lw, w).1 <= t.len(),
    decreases t.len() - j,
{
    if j >= t.len() {
        lemma_trim_point_bounds(t, prev);
    } else if t[j] == '\n' {
    } else if lw + visible(ws[j]) > w {
        lemma_trim_point_bounds(t, j);
    } else {
        lemma_long_break_bounds(t, ws, prev, j + 1, lw + visible(ws[j]), w);
    }
}

/// A line lies inside the text and the rest starts after it.
pub proof fn lemma_scan_line_bounds(t: Seq<char>, ws: Seq<i32>, idx: int, lw: nat, w: nat)
    requires
        0 <= idx <= t.len(),
    ensures
        idx <= scan_line(t, ws, idx, lw, w).0 <= scan_line(t, ws, idx, lw, w).1 <= t.len(),
    decreases t.len() - idx,
{
    if idx < t.len() && t[idx] != '\n' {
        lemma_wrap_point_bounds(t, idx);
        let k = piece_end(t, idx);
        let ww = visible_width(ws.subrange(idx, k));
        if lw + ww <= w {
            lemma_scan_line_bounds(t, ws, k, lw + ww, w);
        } else if lw == 0 {
            lemma_long_break_bounds(t, ws, idx, idx, 0, w);
        } else {
            lemma_trim_point_bounds(t, idx);
        }
    }
}

/// Each character of `t[a..b]` is white space or a line feed.
pub open spec fn only_space(t: Seq<char>, a: int, b: int) -> bool {
    forall|j: int| a <= j < b ==> (t[j] == '\n' || unicode_whitespace(#[trigger] t[j]))
}

proof fn lemma_trim_point_space(t: Seq<char>, j: int)
    requires
        0 <= j <= t.len(),
    ensures
        only_space(t, j, trim_point(t, j)),
    decreases t.len() - j,
{
    if j < t.len() && unicode_whitespace(t[j]) {
        lemma_trim_point_space(t, j + 1);
    }
}

proof fn lemma_long_break_space(t: Seq<char>, ws: Seq<i32>, prev: int, j: int, lw: nat, w: nat)
    requires
        0 <= prev <= j <= t.len(),
    ensures
        only_space(t, long_break(t, ws, prev, j, lw, w).0, long_break(t, ws, prev, j, lw, w).1),
    decreases t.len() - j,
{
    if j >= t.len() {
        lemma_trim_point_space(t, prev);
    } else if t[j] == '\n' {
    } else if lw + visible(ws[j]) > w {
        lemma_trim_point_space(t, j);
    } else {
        lemma_long_break_space(t, ws, prev, j + 1, lw + visible(ws[j]), w);
    }
}

/// What a line leaves out between its end and where the rest starts is
/// white space and line feeds.
proof fn lemma_scan_line_space(t: Seq<char>, ws: Seq<i32>, idx: int, lw: nat, w: nat)
    requires
        0 <= idx <= t.len(),
    ensures
        only_space(t, scan_line(t, ws, idx, lw, w).0, scan_line(t, ws, idx, lw, w).1),
    decreases t.len() - idx,
{
    if idx < t.len() && t[idx] != '\n' {
        lemma_wrap_point_bounds(t, idx);
        let k = piece_end(t, idx);
        let ww = visible_width(ws.subrange(idx, k));
        if lw + ww <= w {
            lemma_scan_line_space(t, ws, k, lw + ww, w);
        } else if lw == 0 {
            lemma_long_break_space(t, ws, idx, idx, 0, w);
        } else {
            lemma_trim_point_space(t, idx);
        }
    }
}

/// Wrapping drops only white space and line feeds: the lines taken so far
/// follow one another in the text, and each character between the start
/// and where the rest of the text starts lies in one of them or is white
/// space or a line feed.
pub proof fn wrapping_drops_only_space(t: Seq<char>, ws: Seq<i32>, w: nat, st: WrapState, k: nat)
    requires
        0 <= st.start,
    ensures
        ({
            let ls = wrap_lines(t, ws, w, st, k);
            let s = wrap_iter(t, ws, w, st, k);
            &&& st.start <= s.start
            &&& forall|i: int| 0 <= i < ls.len() ==> st.start <= (#[trigger] ls[i]).0 <= ls[i].1 <= s.start
            &&& forall|i: int, i2: int| 0 <= i < i2 < ls.len() ==> (#[trigger] ls[i]).1 <= (#[trigger] ls[i2]).0
            &&& forall|j: int| st.start <= j < s.start && j < t.len() ==>
                    (t[j] == '\n' || unicode_whitespace(#[trigger] t[j]))
                    || exists|i: int| 0 <= i < ls.len() && (#[trigger] ls[i]).0 <= j < ls[i].1
        }),
    decreases k,
{
    if k > 0 {
        wrapping_drops_only_space(t, ws, w, st, (k - 1) as nat);
        let prev = wrap_lines(t, ws, w, st, (k - 1) as nat);
        let s1 = wrap_iter(t, ws, w, st, (k - 1) as nat);
        if let Some((end, rest)) = wrap_next(t, ws, w, s1) {
            lemma_scan_line_bounds(t, ws, s1.start, s1.prefix, w);
            lemma_scan_line_space(t, ws, s1.start, s1.prefix, w);
            let ls = prev.push((s1.start, end));
            assert(wrap_lines(t, ws, w, st, k) == ls);
            assert forall|j: int| st.start <= j < rest && j < t.len() implies
                (t[j] == '\n' || unicode_whitespace(#[trigger] t[j]))
                || exists|i: int| 0 <= i < ls.len() && (#[trigger] ls[i]).0 <= j < ls[i].1 by {
                if j < s1.start {
                    if !(t[j] == '\n' || unicode_whitespace(t[j])) {
                        let i0 = choose|i: int| 0 <= i < prev.len() && (#[trigger] prev[i]).0 <= j < prev[i].1;
                        assert(ls[i0] == prev[i0]);
                    }
                } else if j < end {
                    assert(ls[prev.len() as int] == (s1.start, end));
                }
            }
            assert forall|i: int, i2: int| 0 <= i < i2 < ls.len() implies (#[trigger] ls[i]).1 <= (#[trigger] ls[i2]).0 by {
                if i2 < prev.len() {
                    assert(ls[i] == prev[i] && ls[i2] == prev[i2]);
                } else {
                    assert(ls[i] == prev[i]);
                }
            }
            assert(wrap_iter(t, ws, w, st, k).start == rest);
        } else {
            assert(wrap_lines(t, ws, w, st, k) == prev);
            assert(wrap_iter(t, ws, w, st, k) == s1);
        }
    }
}

/// Once the text is used up, every character after the start is in a
/// line, or white space or a line feed that the wrapping left out.
pub proof fn wrapping_keeps_visible_text(t: Seq<char>, ws: Seq<i32>, w: nat, st: WrapState)
    requires
        0 <= st.start,
        wraps_out(t, ws, w, st),
    ensures
        forall|j: int| st.start <= j < t.len() ==>
            (t[j] == '\n' || unicode_whitespace(#[trigger] t[j]))
            || exists|i: int| 0 <= i < all_wrap_lines(t, ws, w, st).len()
                && (#[trigger] all_wrap_lines(t, ws, w, st)[i]).0 <= j < all_wrap_lines(t, ws, w, st)[i].1,
{
    let k = choose|k: nat| #[trigger] wrap_iter(t, ws, w, st, k).start >= t.len();
    wrapping_drops_only_space(t, ws, w, st, k);
    assert(all_wrap_lines(t, ws, w, st) == wrap_lines(t, ws, w, st, k));
    assert(wrap_iter(t, ws, w, st, k).start >= t.len());
}

proof fn lemma_visible_width_split(ws: Seq<i32>, a: int, b: int, c: int)
    requires
        0 <= a <= b <= c <= ws.len(),
    ensures
        visible_width(ws.subrange(a, c)) == visible_width(ws.subrange(a, b)) + visible_width(ws.subrange(b, c)),
    decreases c - b,
{
    if b < c {
        lemma_visible_width_split(ws, a, b, c - 1);
        assert(ws.subrange(a, c).drop_last() =~= ws.subrange(a, c - 1));
        assert(ws.subrange(b, c).drop_last() =~= ws.subrange(b, c - 1));
    } else {
        assert(ws.subrange(a, c) =~= ws.subrange(a, b));
        assert(ws.subrange(b, c).len() == 0);
    }
}

proof fn lemma_long_break_fits(t: Seq<char>, ws: Seq<i32>, prev: int, j: int, lw: nat, w: nat)
    requires
        0 <= prev <= j <= t.len(),
        ws.len() == t.len(),
        lw == visible_width(ws.subrange(prev, j)),
        lw <= w,
    ensures
        visible_width(ws.subrange(prev, long_break(t, ws, prev, j, lw, w).0)) <= w,
    decreases t.len() - j,
{
    if j >= t.len() {
        assert(ws.subrange(prev, prev).len() == 0);
    } else if t[j] == '\n' {
    } else if lw + visible(ws[j]) > w {
    } else {
        assert(ws.subrange(prev, j + 1) =~= ws.subrange(prev, j).push(ws[j]));
        lemma_visible_width_push(ws.subrange(prev, j), ws[j]);
        lemma_long_break_fits(t, ws, prev, j + 1, lw + visible(ws[j]), w);
    }
}

/// A line fits in what is left of the columns: the columns taken before
/// it and its own come to at most `w`.
proof fn lemma_scan_line_fits(t: Seq<char>, ws: Seq<i32>, idx: int, lw: nat, w: nat)
    requires
        0 <= idx <= t.len(),
        ws.len() == t.len(),
        lw <= w,
    ensures
        lw + visible_width(ws.subrange(idx, scan_line(t, ws, idx, lw, w).0)) <= w,
    decreases t.len() - idx,
{
    if idx >= t.len() || t[idx] == '\n' {
        assert(ws.subrange(idx, idx).len() == 0);
    } else {
        lemma_wrap_point_bounds(t, idx);
        let k = piece_end(t, idx);
        let ww = visible_width(ws.subrange(idx, k));
        if lw + ww <= w {
            lemma_scan_line_fits(t, ws, k, lw + ww, w);
            lemma_scan_line_bounds(t, ws, k, lw + ww, w);
            lemma_visible_width_split(ws, idx, k, scan_line(t, ws, k, lw + ww, w).0);
        } else if lw == 0 {
            assert(ws.subrange(idx, idx).len() == 0);
            lemma_long_break_fits(t, ws, idx, idx, 0, w);
        } else {
            assert(ws.subrange(idx, idx).len() == 0);
        }
    }
}

/// The first line of a wrapping fits after the columns already taken.
pub proof fn first_wrap_line_fits(t: Seq<char>, ws: Seq<i32>, w: nat, st: WrapState, k: nat)
    requires
        0 <= st.start,
        st.prefix <= w,
        ws.len() == t.len(),
    ensures
        wrap_lines(t, ws, w, st, k).len() > 0 ==> {
            &&& wrap_lines(t, ws, w, st, k)[0].0 == st.start
            &&& st.prefix + visible_width(ws.subrange(st.start, wrap_lines(t, ws, w, st, k)[0].1)) <= w
        },
    decreases k,
{
    if k > 0 {
        first_wrap_line_fits(t, ws, w, st, (k - 1) as nat);
        let prev = wrap_lines(t, ws, w, st, (k - 1) as nat);
        if prev.len() == 0 {
            lemma_wrap_lines_empty_state(t, ws, w, st, (k - 1) as nat);
            if st.start < t.len() {
                lemma_scan_line_fits(t, ws, st.start, st.prefix, w);
            }
        } else {
            let s = wrap_iter(t, ws, w, st, (k - 1) as nat);
            if let Some((end, _)) = wrap_next(t, ws, w, s) {
                assert(wrap_lines(t, ws, w, st, k)[0] == prev[0]);
            }
        }
    }
}

/// While no line has been taken, the state is the one wrapping started
/// from.
proof fn lemma_wrap_lines_empty_state(t: Seq<char>, ws: Seq<i32>, w: nat, st: WrapState, k: nat)
    requires
        wrap_lines(t, ws, w, st, k).len() == 0,
    ensures
        wrap_iter(t, ws, w, st, k) == st,
    decreases k,
{
    if k > 0 {
        let prev = wrap_lines(t, ws, w, st, (k - 1) as nat);
        let s = wrap_iter(t, ws, w, st, (k - 1) as nat);
        if wrap_next(t, ws, w, s) is None {
            lemma_wrap_lines_empty_state(t, ws, w, st, (k - 1) as nat);
        }
    }
}

/// Taking `k + 1` lines is taking one and then `k` more.
pub proof fn lemma_wrap_iter_shift(t: Seq<char>, ws: Seq<i32>, w: nat, st: WrapState, k: nat)
    ensures
        wrap_iter(t, ws, w, st, k + 1) == wrap_iter(t, ws, w, wrap_step(t, ws, w, st), k),
    decreases k,
{
    let next = wrap_step(t, ws, w, st);
    assert(wrap_iter(t, ws, w, st, k + 1) == wrap_step(t, ws, w, wrap_iter(t, ws, w, st, k)));
    if k > 0 {
        lemma_wrap_iter_shift(t, ws, w, st, (k - 1) as nat);
        assert(wrap_iter(t, ws, w, next, k) == wrap_step(t, ws, w, wrap_iter(t, ws, w, next, (k - 1) as nat)));
    } else {
        assert(wrap_iter(t, ws, w, st, 0) == st);
        assert(wrap_iter(t, ws, w, next, 0) == next);
    }
}

/// A word that starts a line and does not fit in it is broken after at
/// least its first character, where every character fits in a line.
proof fn lemma_long_break_progress(t: Seq<char>, ws: Seq<i32>, prev: int, j: int, k: int, lw: nat, w: nat)
    requires
        0 <= prev < j <= k <= t.len(),
        ws.len() == t.len(),
        lw == visible_width(ws.subrange(prev, j)),
        lw <= w,
        visible_width(ws.subrange(prev, k)) > w,
    ensures
        long_break(t, ws, prev, j, lw, w).0 > prev,
    decreases t.len() - j,
{
    if j == k {
    } else if t[j] == '\n' {
    } else if lw + visible(ws[j]) > w {
    } else {
        assert(ws.subrange(prev, j + 1) =~= ws.subrange(prev, j).push(ws[j]));
        lemma_visible_width_push(ws.subrange(prev, j), ws[j]);
        lemma_long_break_progress(t, ws, prev, j + 1, k, lw + visible(ws[j]), w);
    }
}

/// A line that starts with no columns taken moves the text on, where every
/// character fits in a line.
proof fn lemma_scan_line_progress(t: Seq<char>, ws: Seq<i32>, idx: int, w: nat)
    requires
        0 <= idx < t.len(),
        ws.len() == t.len(),
        forall|j: int| 0 <= j < ws.len() ==> visible(#[trigger] ws[j]) <= w,
    ensures
        scan_line(t, ws, idx, 0, w).1 > idx,
{
    if t[idx] != '\n' {
        lemma_wrap_point_bounds(t, idx);
        let k = piece_end(t, idx);
        let ww = visible_width(ws.subrange(idx, k));
        if ww <= w {
            lemma_scan_line_bounds(t, ws, k, ww, w);
        } else {
            assert(ws.subrange(idx, idx + 1) =~= seq![ws[idx]]);
            assert(seq![ws[idx]] =~= Seq::<i32>::empty().push(ws[idx]));
            lemma_visible_width_push(Seq::<i32>::empty(), ws[idx]);
            assert(visible(ws[idx]) <= w);
            lemma_long_break_progress(t, ws, idx, idx + 1, k, visible(ws[idx]), w);
            lemma_long_break_bounds(t, ws, idx, idx + 1, visible(ws[idx]), w);
        }
    }
}

/// Wrapping to lines of at least two columns always ends: every line
/// after the first moves the text on.
pub proof fn wraps_out_when_wide(t: Seq<char>, ws: Seq<i32>, w: nat, st: WrapState)
    requires
        ws.len() == t.len(),
        valid_widths(ws),
        w >= 2,
        st.start >= 0,
    ensures
        wraps_out(t, ws, w, st),
{
    assert forall|j: int| 0 <= j < ws.len() implies visible(#[trigger] ws[j]) <= w by {
        assert(-1 <= ws[j] <= 2);
    }
    wraps_out_when_chars_fit(t, ws, w, st);
}

/// Wrapping ends where no character is wider than a line: every line
/// after the first moves the text on.
pub proof fn wraps_out_when_chars_fit(t: Seq<char>, ws: Seq<i32>, w: nat, st: WrapState)
    requires
        ws.len() == t.len(),
        forall|j: int| 0 <= j < ws.len() ==> visible(#[trigger] ws[j]) <= w,
        st.start >= 0,
    ensures
        wraps_out(t, ws, w, st),
    decreases t.len() - st.start, if st.prefix > 0 { 1int } else { 0int },
{
    if st.start >= t.len() {
        assert(wrap_iter(t, ws, w, st, 0).start >= t.len());
    } else {
        let next = wrap_step(t, ws, w, st);
        lemma_scan_line_bounds(t, ws, st.start, st.prefix, w);
        if st.prefix == 0 {
            lemma_scan_line_progress(t, ws, st.start, w);
        }
        wraps_out_when_chars_fit(t, ws, w, next);
        let k = choose|k: nat| #[trigger] wrap_iter(t, ws, w, next, k).start >= t.len();
        lemma_wrap_iter_shift(t, ws, w, st, k);
        assert(wrap_iter(t, ws, w, st, k + 1).start >= t.len());
    }
}

/// Every line of `text` wrapped to `wrap_width` columns, the first line
/// starting with `prefix_width` columns taken, as ranges of characters,
/// where the wrapping ends.
pub fn wrap_ranges_from(text: &str, widths: &[i32], wrap_width: usize, prefix_width: usize) -> (r: Vec<(usize, usize)>)
    requires
        widths@.len() == text@.len(),
        valid_widths(widths@),
        wraps_out(text@, widths@, wrap_width as nat, WrapState { start: 0, prefix: prefix_width as nat }),
    ensures
        r@.len() == all_wrap_lines(text@, widths@, wrap_width as nat, WrapState { start: 0, prefix: prefix_width as nat }).len(),
        forall|i: int| 0 <= i < r@.len() ==> (#[trigger] r@[i]).0 as int == all_wrap_lines(text@, widths@, wrap_width as nat, WrapState { start: 0, prefix: prefix_width as nat })[i].0
            && r@[i].1 as int == all_wrap_lines(text@, widths@, wrap_width as nat, WrapState { start: 0, prefix: prefix_width as nat })[i].1,
        forall|i: int| 0 <= i < r@.len() ==> (#[trigger] r@[i]).0 <= r@[i].1 <= text@.len(),
{
    let ghost t = text@;
    let ghost ws = widths@;
    let ghost w = wrap_width as nat;
    let ghost st0 = WrapState { start: 0, prefix: prefix_width as nat };
    let ghost k0 = choose|k: nat| #[trigger] wrap_iter(t, ws, w, st0, k).start >= t.len();
    let mut wr = LineWrapper::with_prefix_width(text, widths, wrap_width, prefix_width);
    let mut out: Vec<(usize, usize)> = Vec::new();
    let ghost mut n: nat = 0;
    loop
        invariant
            wr.inv(),
            wr.chars_v() == t,
            wr.widths_v() == ws,
            wr.width_limit() == w,
            t == text@,
            ws == widths@,
            w == wrap_width as nat,
            wrap_iter(t, ws, w, st0, k0).start >= t.len(),
            st0 == (WrapState { start: 0, prefix: prefix_width as nat }),
            wr.state() == wrap_iter(t, ws, w, st0, n),
            n <= k0,
            out@.len() == wrap_lines(t, ws, w, st0, n).len(),
            forall|i: int| 0 <= i < out@.len() ==> (#[trigger] out@[i]).0 as int == wrap_lines(t, ws, w, st0, n)[i].0
                && out@[i].1 as int == wrap_lines(t, ws, w, st0, n)[i].1,
            forall|i: int| 0 <= i < out@.len() ==> (#[trigger] out@[i]).0 <= out@[i].1 <= t.len(),
        decreases k0 - n,
    {
        let ghost s = wr.state();
        match wr.next_range() {
            None => {
                proof {
                    lemma_all_wrap_lines(t, ws, w, st0, n);
                    assert(st0 == WrapState { start: 0, prefix: prefix_width as nat });
                    assert(all_wrap_lines(text@, widths@, wrap_width as nat, WrapState { start: 0, prefix: prefix_width as nat })
                        == wrap_lines(t, ws, w, st0, n));
                }
                return out;
            },
            Some((a, b)) => {
                proof {
                    lemma_wrap_before_done(t, ws, w, st0, n, k0);
                    lemma_scan_line_bounds(t, ws, a as int, s.prefix, w);
                }
                let ghost prev = out@;
                out.push((a, b));
                proof {
                    assert(wrap_lines(t, ws, w, st0, n + 1) == wrap_lines(t, ws, w, st0, n).push((a as int, b as int)));
                    assert forall|i: int| 0 <= i < out@.len() implies (#[trigger] out@[i]).0 as int == wrap_lines(t, ws, w, st0, n + 1)[i].0
                        && out@[i].1 as int == wrap_lines(t, ws, w, st0, n + 1)[i].1 by {
                        if i < prev.len() {
                            assert(out@[i] == prev[i]);
                        }
                    }
                    n = n + 1;
                }
            },
        }
    }
}

/// Every line of `text` wrapped to `wrap_width` columns, as ranges of
/// characters, where the wrapping ends.
pub fn wrap_ranges(text: &str, widths: &[i32], wrap_width: usize) -> (r: Vec<(usize, usize)>)
    requires
        widths@.len() == text@.len(),
        valid_widths(widths@),
        wraps_out(text@, widths@, wrap_width as nat, WrapState { start: 0, prefix: 0 }),
    ensures
        r@.len() == all_wrap_lines(text@, widths@, wrap_width as nat, WrapState { start: 0, prefix: 0 }).len(),
        forall|i: int| 0 <= i < r@.len() ==> (#[trigger] r@[i]).0 as int == all_wrap_lines(text@, widths@, wrap_width as nat, WrapState { start: 0, prefix: 0 })[i].0
            && r@[i].1 as int == all_wrap_lines(text@, widths@, wrap_width as nat, WrapState { start: 0, prefix: 0 })[i].1,
        forall|i: int| 0 <= i < r@.len() ==> (#[trigger] r@[i]).0 <= r@[i].1 <= text@.len(),
{
    wrap_ranges_from(text, widths, wrap_width, 0)
}

} // verus!
