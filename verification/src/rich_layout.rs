use vstd::prelude::*;
use crate::text::push_char;
use crate::char_width::valid_widths;
use crate::rich_text::{
    RichText, RichTextCode, RichTextStyle, Code, line_view, lines_view, line_width_spec, line_width,
    diff_codes, apply_codes, default_style, default_style_value, extend_codes, append_text_result,
    room_for,
};

verus! {

/// `n` blanks.
pub open spec fn spaces(n: nat) -> Seq<char> {
    Seq::new(n, |i: int| ' ')
}

/// Appends `n` blanks to `s`.
pub fn push_spaces(s: &mut String, n: usize)
    ensures
        final(s)@ == old(s)@ + spaces(n as nat),
{
    let ghost start = s@;
    let mut k: usize = 0;
    while k < n
        invariant
            k <= n,
            s@ == start + spaces(k as nat),
        decreases n - k,
    {
        push_char(s, ' ');
        assert(start + spaces((k + 1) as nat) =~= (start + spaces(k as nat)).push(' '));
        k += 1;
    }
}

/// A string of `n` blanks.
pub fn space_string(n: usize) -> (s: String)
    ensures
        s@ == spaces(n as nat),
{
    let mut s = String::new();
    push_spaces(&mut s, n);
    assert(s@ =~= spaces(n as nat));
    s
}

/// The line `line`, `lw` columns wide, widened to `width` columns with
/// blanks at its end: the last text run grows, or a new run is added.
pub open spec fn pad_right(line: Seq<Code>, lw: nat, width: nat) -> Seq<Code> {
    if lw < width {
        let d = (width - lw) as nat;
        if line.len() > 0 && line.last() is Text {
            line.update(
                line.len() - 1,
                Code::Text { text: line.last()->text + spaces(d), width: line.last()->width + d },
            )
        } else {
            line.push(Code::Text { text: spaces(d), width: d })
        }
    } else {
        line
    }
}

/// The line `line`, `lw` columns wide, widened to `width` columns with
/// blanks at its start: the first text run grows, or a new run is put in
/// front.
pub open spec fn pad_left(line: Seq<Code>, lw: nat, width: nat) -> Seq<Code> {
    if lw < width {
        let d = (width - lw) as nat;
        if line.len() > 0 && line[0] is Text {
            line.update(0, Code::Text { text: spaces(d) + line[0]->text, width: line[0]->width + d })
        } else {
            seq![Code::Text { text: spaces(d), width: d }] + line
        }
    } else {
        line
    }
}

/// Every line widened to `width` columns at its end.
pub open spec fn pad_lines_right(lines: Seq<Seq<Code>>, width: nat) -> Seq<Seq<Code>> {
    Seq::new(lines.len(), |i: int| pad_right(lines[i], line_width_spec(lines[i]), width))
}

/// Every line widened to `width` columns at its start.
pub open spec fn pad_lines_left(lines: Seq<Seq<Code>>, width: nat) -> Seq<Seq<Code>> {
    Seq::new(lines.len(), |i: int| pad_left(lines[i], line_width_spec(lines[i]), width))
}

/// The width of every line fits in a `usize`.
pub open spec fn widths_fit(lines: Seq<Seq<Code>>) -> bool {
    forall|i: int| 0 <= i < lines.len() ==> #[trigger] line_width_spec(lines[i]) <= usize::MAX
}

/// `n` empty lines.
pub open spec fn empty_lines(n: nat) -> Seq<Seq<Code>> {
    Seq::new(n, |i: int| Seq::<Code>::empty())
}

/// Widens `line`, which is `line_width` columns wide, to `width` columns
/// with blanks at its end; see [`pad_right`].
pub(crate) fn right_pad_line_with(line: &mut Vec<RichTextCode>, line_width: usize, width: usize)
    requires
        line_width < width && line_view(old(line)@).len() > 0 && line_view(old(line)@).last() is Text
            ==> line_view(old(line)@).last()->width + (width - line_width) <= usize::MAX,
    ensures
        line_view(final(line)@) == pad_right(line_view(old(line)@), line_width as nat, width as nat),
{
    if line_width < width {
        let extra = width - line_width;
        let ghost l0 = line_view(line@);
        match line.pop() {
            Some(RichTextCode::Text { text, width: tw }) => {
                proof {
                    assert(l0 =~= line_view(line@).push(Code::Text { text: text@, width: tw as nat }));
                    assert(l0.drop_last() =~= line_view(line@));
                }
                let mut t = text;
                push_spaces(&mut t, extra);
                line.push(RichTextCode::Text { text: t, width: tw + extra });
                assert(line_view(line@) =~= pad_right(l0, line_width as nat, width as nat));
            },
            Some(c) => {
                line.push(c);
                assert(line_view(line@) =~= l0);
                line.push(RichTextCode::Text { text: space_string(extra), width: extra });
                assert(line_view(line@) =~= pad_right(l0, line_width as nat, width as nat));
            },
            None => {
                line.push(RichTextCode::Text { text: space_string(extra), width: extra });
                assert(line_view(line@) =~= pad_right(l0, line_width as nat, width as nat));
            },
        }
    }
}

/// Widens `line` to `width` columns with blanks at its end; see
/// [`pad_right`].
pub fn right_pad_line(line: &mut Vec<RichTextCode>, width: usize)
    requires
        line_width_spec(line_view(old(line)@)) <= usize::MAX,
    ensures
        line_view(final(line)@) == pad_right(line_view(old(line)@), line_width_spec(line_view(old(line)@)), width as nat),
{
    let lw = line_width(line.as_slice());
    proof {
        let l = line_view(line@);
        if l.len() > 0 {
            assert(l.drop_last().push(l.last()) =~= l);
            crate::rich_text::lemma_line_width_push(l.drop_last(), l.last());
        }
    }
    right_pad_line_with(line, lw, width);
}

/// Widens `line`, which is `line_width` columns wide, to `width` columns
/// with blanks at its start; see [`pad_left`].
fn left_pad_line_with(line: &mut Vec<RichTextCode>, line_width: usize, width: usize)
    requires
        line_width as nat == line_width_spec(line_view(old(line)@)),
    ensures
        line_view(final(line)@) == pad_left(line_view(old(line)@), line_width as nat, width as nat),
{
    if line_width < width {
        let extra = width - line_width;
        let ghost l0 = line_view(line@);
        if line.len() > 0 {
            let first = line.remove(0);
            match first {
                RichTextCode::Text { text, width: tw } => {
                    proof {
                        assert(l0 =~= seq![Code::Text { text: text@, width: tw as nat }] + line_view(line@));
                        lemma_first_width(l0);
                    }
                    let mut t = space_string(extra);
                    let tv = crate::text::to_chars(text.as_str());
                    let mut j: usize = 0;
                    while j < tv.len()
                        invariant
                            j <= tv@.len(),
                            tv@ == text@,
                            t@ == spaces(extra as nat) + tv@.take(j as int),
                        decreases tv.len() - j,
                    {
                        push_char(&mut t, tv[j]);
                        assert(spaces(extra as nat) + tv@.take(j + 1) =~= (spaces(extra as nat) + tv@.take(j as int)).push(tv@[j as int]));
                        j += 1;
                    }
                    assert(tv@.take(j as int) =~= tv@);
                    line.insert(0, RichTextCode::Text { text: t, width: tw + extra });
                    assert(line_view(line@) =~= pad_left(l0, line_width as nat, width as nat));
                },
                c => {
                    line.insert(0, c);
                    assert(line_view(line@) =~= l0);
                    line.insert(0, RichTextCode::Text { text: space_string(extra), width: extra });
                    assert(line_view(line@) =~= pad_left(l0, line_width as nat, width as nat));
                },
            }
        } else {
            line.insert(0, RichTextCode::Text { text: space_string(extra), width: extra });
            assert(line_view(line@) =~= pad_left(l0, line_width as nat, width as nat));
        }
    }
}

/// The first code of a line is no wider than the line.
proof fn lemma_first_width(line: Seq<Code>)
    requires
        line.len() > 0,
    ensures
        crate::rich_text::code_width(line[0]) <= line_width_spec(line),
    decreases line.len(),
{
    if line.len() > 1 {
        lemma_first_width(line.drop_last());
        assert(line.drop_last()[0] == line[0]);
    }
}

/// Styles in effect at the start of line `i` when lines `a` are joined
/// side by side with lines `b`: the style of the left text and that of
/// the right text.
pub open spec fn side_styles(a: Seq<Seq<Code>>, b: Seq<Seq<Code>>, i: nat) -> (RichTextStyle, RichTextStyle)
    decreases i,
{
    if i == 0 {
        (default_style(), default_style())
    } else {
        let (sa, sb) = side_styles(a, b, (i - 1) as nat);
        (apply_codes(sa, a[i - 1]), apply_codes(sb, b[i - 1]))
    }
}

/// Line `i` of `a` followed by line `i` of `b`: after the left part the
/// style switches to the one the right text is in, and after the right
/// part back to the left one.
pub open spec fn joined_line(a: Seq<Seq<Code>>, b: Seq<Seq<Code>>, i: int) -> Seq<Code> {
    let (sa, sb) = side_styles(a, b, i as nat);
    let sa2 = apply_codes(sa, a[i]);
    let sb2 = apply_codes(sb, b[i]);
    a[i] + diff_codes(sa2, sb) + b[i] + diff_codes(sb2, sa2)
}

/// A blank run of `w` columns, none where `w` is zero.
pub open spec fn blank_prefix(w: nat) -> Seq<Code> {
    if w > 0 { seq![Code::Text { text: spaces(w), width: w }] } else { seq![] }
}

/// Lines `a`, `w` columns wide, with lines `b` put to their right; lines
/// of `b` past the end of `a` are moved right by `w` blanks.
pub open spec fn side_by_side(a: Seq<Seq<Code>>, b: Seq<Seq<Code>>, w: nat) -> Seq<Seq<Code>> {
    Seq::new(
        if a.len() >= b.len() { a.len() } else { b.len() },
        |i: int| if i < a.len() && i < b.len() {
            joined_line(a, b, i)
        } else if i < a.len() {
            a[i]
        } else {
            blank_prefix(w) + b[i]
        },
    )
}

/// The bytes that show one code: an escape sequence for a style change,
/// the UTF-8 encoding of a text run.
pub open spec fn code_bytes(c: Code) -> Seq<u8> {
    match c {
        Code::Text { text, .. } => vstd::utf8::encode_utf8(text),
        _ => crate::rich_text::code_sgr(c),
    }
}

/// The bytes of the codes of a line, one after the other.
pub open spec fn line_bytes(line: Seq<Code>) -> Seq<u8>
    decreases line.len(),
{
    if line.len() == 0 {
        seq![]
    } else {
        line_bytes(line.drop_last()) + code_bytes(line.last())
    }
}

/// The bytes printed for the first `k` lines and the style in effect
/// after them: each line starts from the default style switched to the
/// style in effect, and ends switched back to the default and a line
/// feed.
pub open spec fn print_state(lines: Seq<Seq<Code>>, k: nat) -> (Seq<u8>, RichTextStyle)
    decreases k,
{
    if k == 0 {
        (seq![], default_style())
    } else {
        let (out, s) = print_state(lines, (k - 1) as nat);
        let l = lines[k - 1];
        let s2 = apply_codes(s, l);
        (
            out + crate::rich_text::codes_sgr(diff_codes(default_style(), s)) + line_bytes(l)
                + crate::rich_text::codes_sgr(diff_codes(s2, default_style())) + seq![10u8],
            s2,
        )
    }
}

/// The bytes of the codes of `codes`.
fn line_to_bytes(out: &mut Vec<u8>, codes: &[RichTextCode])
    ensures
        final(out)@ == old(out)@ + line_bytes(line_view(codes@)),
{
    let ghost start = out@;
    let mut i: usize = 0;
    while i < codes.len()
        invariant
            i <= codes@.len(),
            out@ == start + line_bytes(line_view(codes@.take(i as int))),
        decreases codes.len() - i,
    {
        proof {
            assert(line_view(codes@.take(i + 1)) =~= line_view(codes@.take(i as int)).push(codes@[i as int]@));
            assert(line_view(codes@.take(i + 1)).drop_last() =~= line_view(codes@.take(i as int)));
            assert(line_view(codes@.take(i + 1)).last() == codes@[i as int]@);
            assert(line_bytes(line_view(codes@.take(i + 1)))
                == line_bytes(line_view(codes@.take(i as int))) + code_bytes(codes@[i as int]@));
        }
        let ghost before = out@;
        match &codes[i] {
            RichTextCode::Text { text, .. } => {
                let b = text.as_str().as_bytes();
                let mut j: usize = 0;
                while j < b.len()
                    invariant
                        j <= b@.len(),
                        b@ == vstd::utf8::encode_utf8(text@),
                        out@ == before + b@.take(j as int),
                    decreases b.len() - j,
                {
                    out.push(b[j]);
                    assert(before + b@.take(j + 1) =~= (before + b@.take(j as int)).push(b@[j as int]));
                    j += 1;
                }
                assert(b@.take(j as int) =~= b@);
            },
            c => {
                let one = vec![c.duplicate()];
                let v = crate::rich_text::codes_to_sgr(one.as_slice());
                proof {
                    assert(line_view(one@) =~= seq![c@]);
                    assert(seq![c@].drop_last() =~= Seq::<Code>::empty());
                    assert(crate::rich_text::codes_sgr(seq![c@]) =~= crate::rich_text::code_sgr(c@)) by {
                        reveal_with_fuel(crate::rich_text::codes_sgr, 2);
                    }
                    assert(code_bytes(c@) == crate::rich_text::code_sgr(c@));
                }
                let mut j: usize = 0;
                while j < v.len()
                    invariant
                        j <= v@.len(),
                        out@ == before + v@.take(j as int),
                    decreases v.len() - j,
                {
                    out.push(v[j]);
                    assert(before + v@.take(j + 1) =~= (before + v@.take(j as int)).push(v@[j as int]));
                    j += 1;
                }
                assert(v@.take(j as int) =~= v@);
            },
        }
        assert(out@ =~= start + line_bytes(line_view(codes@.take(i + 1))));
        i += 1;
    }
    assert(codes@.take(i as int) =~= codes@);
}

impl RichText {
    /// Rich text made of `plain_text` in the default style.
    pub fn from_plain_text(plain_text: &str, widths: &[i32]) -> (r: RichText)
        requires
            widths@.len() == plain_text@.len(),
            valid_widths(widths@),
            room_for(Seq::empty(), plain_text@.len()),
        ensures
            (r.lines_v(), r.width as nat) == append_text_result(Seq::empty(), 0, default_style(), plain_text@, widths@),
    {
        let mut r = RichText::new();
        r.append_plain_text(plain_text, widths);
        r
    }

    /// Widens every line to `width` columns with blanks at its end, where
    /// `width` is more than the current width, which it then becomes.
    pub fn right_pad(&mut self, width: usize)
        requires
            widths_fit(old(self).lines_v()),
        ensures
            width > old(self).width ==> final(self).lines_v() == pad_lines_right(old(self).lines_v(), width as nat)
                && final(self).width == width,
            width <= old(self).width ==> final(self).lines_v() == old(self).lines_v() && final(self).width == old(self).width,
    {
        if width > self.width {
            let ghost l0 = self.lines_v();
            let mut i: usize = 0;
            while i < self.lines.len()
                invariant
                    i <= self.lines@.len(),
                    self.lines@.len() == l0.len(),
                    widths_fit(l0),
                    forall|j: int| 0 <= j < i ==> #[trigger] self.lines_v()[j] == pad_right(l0[j], line_width_spec(l0[j]), width as nat),
                    forall|j: int| i <= j < l0.len() ==> #[trigger] self.lines_v()[j] == l0[j],
                decreases self.lines@.len() - i,
            {
                let ghost before = self.lines@;
                let ghost before_v = self.lines_v();
                assert(line_view(self.lines@[i as int]@) == l0[i as int]) by {
                    assert(self.lines_v()[i as int] == l0[i as int]);
                }
                right_pad_line(&mut self.lines[i], width);
                assert(self.lines@.len() == before.len());
                assert(self.lines@ =~= before.update(i as int, self.lines@[i as int]));
                assert(line_view(self.lines@[i as int]@) == pad_right(line_view(before[i as int]@), line_width_spec(line_view(before[i as int]@)), width as nat));
                assert(line_view(before[i as int]@) == l0[i as int]);
                assert(self.lines_v()[i as int] == pad_right(l0[i as int], line_width_spec(l0[i as int]), width as nat));
                assert forall|j: int| 0 <= j < l0.len() && j != i implies #[trigger] self.lines_v()[j] == before_v[j] by {
                    assert(self.lines@[j] == before[j]);
                }
                i += 1;
            }
            assert(self.lines_v() =~= pad_lines_right(l0, width as nat));
            self.width = width;
        }
    }

    /// Widens every line to `width` columns with blanks at its start,
    /// where `width` is more than the current width, which it then
    /// becomes.
    pub fn left_pad(&mut self, width: usize)
        requires
            widths_fit(old(self).lines_v()),
        ensures
            width > old(self).width ==> final(self).lines_v() == pad_lines_left(old(self).lines_v(), width as nat)
                && final(self).width == width,
            width <= old(self).width ==> final(self).lines_v() == old(self).lines_v() && final(self).width == old(self).width,
    {
        if width > self.width {
            let ghost l0 = self.lines_v();
            let mut i: usize = 0;
            while i < self.lines.len()
                invariant
                    i <= self.lines@.len(),
                    self.lines@.len() == l0.len(),
                    widths_fit(l0),
                    forall|j: int| 0 <= j < i ==> #[trigger] self.lines_v()[j] == pad_left(l0[j], line_width_spec(l0[j]), width as nat),
                    forall|j: int| i <= j < l0.len() ==> #[trigger] self.lines_v()[j] == l0[j],
                decreases self.lines@.len() - i,
            {
                let ghost before = self.lines@;
                let ghost before_v = self.lines_v();
                assert(line_view(self.lines@[i as int]@) == l0[i as int]) by {
                    assert(self.lines_v()[i as int] == l0[i as int]);
                }
                let lw = line_width(self.lines[i].as_slice());
                left_pad_line_with(&mut self.lines[i], lw, width);
                assert(self.lines@ =~= before.update(i as int, self.lines@[i as int]));
                assert(self.lines_v()[i as int] == pad_left(l0[i as int], line_width_spec(l0[i as int]), width as nat));
                assert forall|j: int| 0 <= j < l0.len() && j != i implies #[trigger] self.lines_v()[j] == before_v[j] by {
                    assert(self.lines@[j] == before[j]);
                }
                i += 1;
            }
            assert(self.lines_v() =~= pad_lines_left(l0, width as nat));
            self.width = width;
        }
    }

    /// Puts empty lines in front until there are `height` lines.
    pub fn top_pad(&mut self, height: usize)
        ensures
            final(self).lines_v() == if height > old(self).lines_v().len() {
                empty_lines((height - old(self).lines_v().len()) as nat) + old(self).lines_v()
            } else {
                old(self).lines_v()
            },
            final(self).width == old(self).width,
    {
        if height > self.lines.len() {
            let mut new_lines: Vec<Vec<RichTextCode>> = Vec::new();
            let count = height - self.lines.len();
            let mut k: usize = 0;
            while k < count
                invariant
                    k <= count,
                    lines_view(new_lines@) == empty_lines(k as nat),
                decreases count - k,
            {
                let v: Vec<RichTextCode> = Vec::new();
                assert(line_view(v@) =~= Seq::<Code>::empty());
                let ghost prev = new_lines@;
                new_lines.push(v);
                assert(lines_view(new_lines@) =~= lines_view(prev).push(Seq::<Code>::empty()));
                assert(lines_view(new_lines@) =~= empty_lines((k + 1) as nat));
                k += 1;
            }
            let ghost l0 = self.lines_v();
            new_lines.append(&mut self.lines);
            self.lines = new_lines;
            assert(self.lines_v() =~= empty_lines(count as nat) + l0);
        }
    }

    /// Adds empty lines at the end until there are `height` lines.
    pub fn bottom_pad(&mut self, height: usize)
        ensures
            final(self).lines_v() == if height > old(self).lines_v().len() {
                old(self).lines_v() + empty_lines((height - old(self).lines_v().len()) as nat)
            } else {
                old(self).lines_v()
            },
            final(self).width == old(self).width,
    {
        if height > self.lines.len() {
            let count = height - self.lines.len();
            self.append_lines(count);
            assert(self.lines_v() =~= old(self).lines_v() + empty_lines(count as nat));
        }
    }

    /// Puts the lines of `other` to the right of these; see
    /// [`side_by_side`].  The width is the sum of the two widths.
    pub fn vertical_append(&mut self, other: &RichText)
        requires
            old(self).width + other.width <= usize::MAX,
        ensures
            final(self).lines_v() == side_by_side(old(self).lines_v(), other.lines_v(), old(self).width as nat),
            final(self).width == old(self).width + other.width,
    {
        let ghost a = self.lines_v();
        let ghost b = other.lines_v();
        let mut self_style = default_style_value();
        let mut other_style = default_style_value();
        let n = if self.lines.len() < other.lines.len() { self.lines.len() } else { other.lines.len() };
        let mut i: usize = 0;
        while i < n
            invariant
                i <= n,
                n <= a.len(),
                n <= b.len(),
                n == a.len() || n == b.len(),
                self.lines@.len() == a.len(),
                b == other.lines_v(),
                self.width == old(self).width,
                (self_style, other_style) == side_styles(a, b, i as nat),
                forall|j: int| 0 <= j < i ==> #[trigger] self.lines_v()[j] == joined_line(a, b, j),
                forall|j: int| i <= j < a.len() ==> #[trigger] self.lines_v()[j] == a[j],
            decreases n - i,
        {
            let ghost before = self.lines@;
            assert(self.lines_v()[i as int] == a[i as int]);
            self_style.apply_changes(self.lines[i].as_slice());
            self_style.diff(&other_style, &mut self.lines[i]);
            extend_codes(&mut self.lines[i], other.lines[i].as_slice());
            other_style.apply_changes(other.lines[i].as_slice());
            other_style.diff(&self_style, &mut self.lines[i]);
            proof {
                assert(other.lines_v()[i as int] == line_view(other.lines@[i as int]@));
                assert(self.lines_v()[i as int] =~= joined_line(a, b, i as int));
                assert forall|j: int| 0 <= j < a.len() && j != i implies #[trigger] self.lines_v()[j] == lines_view(before)[j] by {}
            }
            i += 1;
        }
        let w = self.width;
        let mut k = self.lines.len();
        while k < other.lines.len()
            invariant
                n <= k <= b.len() || k == a.len(),
                a.len() <= k,
                b == other.lines_v(),
                self.lines@.len() == k,
                self.width == w,
                w == old(self).width,
                forall|j: int| 0 <= j < n ==> #[trigger] self.lines_v()[j] == joined_line(a, b, j),
                forall|j: int| n <= j < a.len() ==> #[trigger] self.lines_v()[j] == a[j],
                forall|j: int| a.len() <= j < k ==> #[trigger] self.lines_v()[j] == blank_prefix(w as nat) + b[j],
                n == a.len() || n == b.len(),
                n <= a.len(),
                n <= b.len(),
            decreases other.lines@.len() - k,
        {
            let mut line: Vec<RichTextCode> = Vec::new();
            if w > 0 {
                line.push(RichTextCode::Text { text: space_string(w), width: w });
            }
            assert(line_view(line@) =~= blank_prefix(w as nat));
            extend_codes(&mut line, other.lines[k].as_slice());
            let ghost before = self.lines@;
            let ghost before_v = self.lines_v();
            self.lines.push(line);
            proof {
                assert(self.lines_v()[k as int] == blank_prefix(w as nat) + b[k as int]);
                assert forall|j: int| 0 <= j < k implies #[trigger] self.lines_v()[j] == before_v[j] by {
                    assert(self.lines@[j] == before[j]);
                }
            }
            k += 1;
        }
        assert(self.lines_v() =~= side_by_side(a, b, old(self).width as nat));
        self.width = self.width + other.width;
    }

    /// The text as bytes for a terminal; see [`print_state`].
    pub fn print(&self) -> (r: Vec<u8>)
        ensures
            r@ == print_state(self.lines_v(), self.lines_v().len()).0,
    {
        let mut out: Vec<u8> = Vec::new();
        let mut style = default_style_value();
        let d = default_style_value();
        let mut i: usize = 0;
        while i < self.lines.len()
            invariant
                i <= self.lines@.len(),
                d == default_style(),
                (out@, style) == print_state(self.lines_v(), i as nat),
            decreases self.lines@.len() - i,
        {
            let ghost before = out@;
            let mut pre = d.write_diff(&style);
            out.append(&mut pre);
            line_to_bytes(&mut out, self.lines[i].as_slice());
            let ghost s0 = style;
            style.apply_changes(self.lines[i].as_slice());
            let mut post = style.write_diff(&d);
            out.append(&mut post);
            out.push(10u8);
            proof {
                assert(self.lines_v()[i as int] == line_view(self.lines@[i as int]@));
            }
            i += 1;
        }
        out
    }
}

} // verus!
