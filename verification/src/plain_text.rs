use vstd::prelude::*;
use crate::text::{push_char, char_from_u32, to_chars, byte_len, utf8_len, len_utf8, lemma_byte_len_push};
use crate::rich_layout::{spaces, push_spaces, space_string, empty_lines};
use crate::char_width::valid_widths;
use crate::text::is_ascii_control;
use crate::rich_text::{control_symbol, codes_sgr, diff_codes, default_style, control_style, default_style_value, control_style_value};

verus! {

/// One element of a line of plain text.  `Newline` marks a line that
/// ended with a line feed in the text, as opposed to one that was broken
/// by wrapping; `Special` is a control character, shown by its symbol in
/// one column.
#[derive(Debug)]
pub enum PlainTextItem {
    Newline,
    Text { text: String, width: usize },
    Special(char),
}

/// What a [`PlainTextItem`] holds, with the text as characters.
pub ghost enum Item {
    Newline,
    Text { text: Seq<char>, width: nat },
    Special(char),
}

impl View for PlainTextItem {
    type V = Item;

    open spec fn view(&self) -> Item {
        match self {
            PlainTextItem::Newline => Item::Newline,
            PlainTextItem::Text { text, width } => Item::Text { text: text@, width: *width as nat },
            PlainTextItem::Special(c) => Item::Special(*c),
        }
    }
}

/// Columns taken by an item.
pub open spec fn item_width(i: Item) -> nat {
    match i {
        Item::Newline => 0,
        Item::Special(_) => 1,
        Item::Text { width, .. } => width,
    }
}

/// The items of a line.
pub open spec fn items_view(line: Seq<PlainTextItem>) -> Seq<Item> {
    line.map_values(|i: PlainTextItem| i@)
}

/// The lines, with their items.
pub open spec fn plain_lines_view(lines: Seq<Vec<PlainTextItem>>) -> Seq<Seq<Item>> {
    lines.map_values(|l: Vec<PlainTextItem>| items_view(l@))
}

/// Columns taken by a line.
pub open spec fn items_width(line: Seq<Item>) -> nat
    decreases line.len(),
{
    if line.len() == 0 {
        0
    } else {
        items_width(line.drop_last()) + item_width(line.last())
    }
}

pub proof fn lemma_items_width_push(line: Seq<Item>, i: Item)
    ensures
        items_width(line.push(i)) == items_width(line) + item_width(i),
{
    assert(line.push(i).drop_last() =~= line);
}

pub proof fn lemma_items_width_concat(a: Seq<Item>, b: Seq<Item>)
    ensures
        items_width(a + b) == items_width(a) + items_width(b),
    decreases b.len(),
{
    if b.len() == 0 {
        assert(a + b =~= a);
    } else {
        assert((a + b).drop_last() =~= a + b.drop_last());
        lemma_items_width_concat(a, b.drop_last());
    }
}

/// The first item of a line is no wider than the line.
proof fn lemma_first_item_width(line: Seq<Item>)
    requires
        line.len() > 0,
    ensures
        item_width(line[0]) <= items_width(line),
    decreases line.len(),
{
    if line.len() > 1 {
        lemma_first_item_width(line.drop_last());
        assert(line.drop_last()[0] == line[0]);
    }
}

impl PlainTextItem {
    pub fn width(&self) -> (r: usize)
        ensures
            r == item_width(self@),
    {
        match self {
            PlainTextItem::Newline => 0,
            PlainTextItem::Special(..) => 1,
            PlainTextItem::Text { width, .. } => *width,
        }
    }

    /// A copy of this item.
    pub fn duplicate(&self) -> (r: PlainTextItem)
        ensures
            r@ == self@,
    {
        match self {
            PlainTextItem::Newline => PlainTextItem::Newline,
            PlainTextItem::Special(c) => PlainTextItem::Special(*c),
            PlainTextItem::Text { text, width } => PlainTextItem::Text { text: text.clone(), width: *width },
        }
    }
}

/// Columns taken by a line.
pub fn line_width(line: &[PlainTextItem]) -> (r: usize)
    requires
        items_width(items_view(line@)) <= usize::MAX,
    ensures
        r == items_width(items_view(line@)),
{
    let mut w: usize = 0;
    let mut i: usize = 0;
    while i < line.len()
        invariant
            i <= line@.len(),
            items_width(items_view(line@)) <= usize::MAX,
            w == items_width(items_view(line@.take(i as int))),
        decreases line.len() - i,
    {
        proof {
            assert(items_view(line@.take(i + 1)) =~= items_view(line@.take(i as int)).push(line@[i as int]@));
            lemma_items_width_push(items_view(line@.take(i as int)), line@[i as int]@);
            assert(items_view(line@) =~= items_view(line@.take(i + 1)) + items_view(line@.skip(i + 1)));
            lemma_items_width_concat(items_view(line@.take(i + 1)), items_view(line@.skip(i + 1)));
        }
        w = w + line[i].width();
        i += 1;
    }
    assert(line@.take(i as int) =~= line@);
    w
}

/// Copies of the items `src`, appended to `dst`.
pub fn extend_items(dst: &mut Vec<PlainTextItem>, src: &[PlainTextItem])
    ensures
        items_view(final(dst)@) == items_view(old(dst)@) + items_view(src@),
{
    let ghost start = items_view(dst@);
    let mut i: usize = 0;
    while i < src.len()
        invariant
            i <= src@.len(),
            items_view(dst@) == start + items_view(src@.take(i as int)),
        decreases src.len() - i,
    {
        let ghost prev = dst@;
        dst.push(src[i].duplicate());
        proof {
            assert(items_view(src@.take(i + 1)) =~= items_view(src@.take(i as int)).push(src@[i as int]@));
            assert(items_view(dst@) =~= items_view(prev).push(src@[i as int]@));
        }
        assert(items_view(dst@) =~= start + items_view(src@.take(i + 1)));
        i += 1;
    }
    assert(src@.take(i as int) =~= src@);
}

/// A copy of a line.
pub fn copy_line(src: &[PlainTextItem]) -> (r: Vec<PlainTextItem>)
    ensures
        items_view(r@) == items_view(src@),
{
    let mut r: Vec<PlainTextItem> = Vec::new();
    assert(items_view(r@) =~= Seq::<Item>::empty());
    extend_items(&mut r, src);
    assert(Seq::<Item>::empty() + items_view(src@) =~= items_view(src@));
    r
}

/// The line widened to `width` columns with blanks at its end: the last
/// text grows, or a new text is added.
pub open spec fn plain_pad_right(line: Seq<Item>, lw: nat, width: nat) -> Seq<Item> {
    if lw < width {
        let d = (width - lw) as nat;
        if line.len() > 0 && line.last() is Text {
            line.update(line.len() - 1, Item::Text { text: line.last()->text + spaces(d), width: line.last()->width + d })
        } else {
            line.push(Item::Text { text: spaces(d), width: d })
        }
    } else {
        line
    }
}

/// The line widened to `width` columns with blanks at its start: the first
/// text grows, or a new text is put in front.
pub open spec fn plain_pad_left(line: Seq<Item>, lw: nat, width: nat) -> Seq<Item> {
    if lw < width {
        let d = (width - lw) as nat;
        if line.len() > 0 && line[0] is Text {
            line.update(0, Item::Text { text: spaces(d) + line[0]->text, width: line[0]->width + d })
        } else {
            seq![Item::Text { text: spaces(d), width: d }] + line
        }
    } else {
        line
    }
}

/// The width of every line fits in a `usize`.
pub open spec fn plain_widths_fit(lines: Seq<Seq<Item>>) -> bool {
    forall|i: int| 0 <= i < lines.len() ==> #[trigger] items_width(lines[i]) <= usize::MAX
}

/// `n` empty lines.
pub open spec fn empty_item_lines(n: nat) -> Seq<Seq<Item>> {
    Seq::new(n, |i: int| Seq::<Item>::empty())
}

/// A blank text of `w` columns, none where `w` is zero.
pub open spec fn blank_items(w: nat) -> Seq<Item> {
    if w > 0 { seq![Item::Text { text: spaces(w), width: w }] } else { seq![] }
}

/// Lines `a`, `w` columns wide, with lines `b` put to their right; lines
/// of `b` past the end of `a` are moved right by `w` blanks.
pub open spec fn plain_side_by_side(a: Seq<Seq<Item>>, b: Seq<Seq<Item>>, w: nat) -> Seq<Seq<Item>> {
    Seq::new(
        if a.len() >= b.len() { a.len() } else { b.len() },
        |i: int| if i < a.len() && i < b.len() {
            a[i] + b[i]
        } else if i < a.len() {
            a[i]
        } else {
            blank_items(w) + b[i]
        },
    )
}

/// The characters that show an item: a text's own, the symbol of a
/// control character, none for a line end mark.
pub open spec fn item_chars(i: Item) -> Seq<char> {
    match i {
        Item::Newline => seq![],
        Item::Text { text, .. } => text,
        Item::Special(c) => seq![control_symbol(c)],
    }
}

pub open spec fn line_chars(line: Seq<Item>) -> Seq<char>
    decreases line.len(),
{
    if line.len() == 0 {
        seq![]
    } else {
        line_chars(line.drop_last()) + item_chars(line.last())
    }
}

/// The text as a string: each line followed by a line feed.
pub open spec fn text_chars(lines: Seq<Seq<Item>>) -> Seq<char>
    decreases lines.len(),
{
    if lines.len() == 0 {
        seq![]
    } else {
        text_chars(lines.drop_last()) + line_chars(lines.last()) + seq!['\n']
    }
}

/// The bytes that print an item: a control character's symbol in the
/// control style, a text's UTF-8 encoding.
pub open spec fn item_bytes(i: Item) -> Seq<u8> {
    match i {
        Item::Newline => seq![],
        Item::Text { text, .. } => vstd::utf8::encode_utf8(text),
        Item::Special(c) => codes_sgr(diff_codes(default_style(), control_style()))
            + vstd::utf8::encode_utf8(seq![control_symbol(c)])
            + codes_sgr(diff_codes(control_style(), default_style())),
    }
}

pub open spec fn line_item_bytes(line: Seq<Item>) -> Seq<u8>
    decreases line.len(),
{
    if line.len() == 0 {
        seq![]
    } else {
        line_item_bytes(line.drop_last()) + item_bytes(line.last())
    }
}

/// The printed text: each line followed by a line feed.
pub open spec fn print_bytes(lines: Seq<Seq<Item>>) -> Seq<u8>
    decreases lines.len(),
{
    if lines.len() == 0 {
        seq![]
    } else {
        print_bytes(lines.drop_last()) + line_item_bytes(lines.last()) + seq![10u8]
    }
}

/// Every control item holds an ASCII control character.
pub open spec fn specials_ok(line: Seq<Item>) -> bool {
    forall|i: int| 0 <= i < line.len() ==> (#[trigger] line[i] matches Item::Special(c) ==> crate::text::spec_is_ascii_control(c))
}

/// Every control item of every line holds an ASCII control character.
pub open spec fn all_specials_ok(lines: Seq<Seq<Item>>) -> bool {
    forall|i: int| 0 <= i < lines.len() ==> specials_ok(#[trigger] lines[i])
}

/// A line ends with a line end mark.
pub open spec fn ends_line(line: Seq<Item>) -> bool {
    line.len() > 0 && line.last() == Item::Newline
}

/// Lines broken by wrapping joined again: a line that does not end with a
/// line end mark is continued by the next.  The second part tells whether
/// the last line is still open.
pub open spec fn unwrap_state(lines: Seq<Seq<Item>>) -> (Seq<Seq<Item>>, bool)
    decreases lines.len(),
{
    if lines.len() == 0 {
        (seq![], false)
    } else {
        let (out, open) = unwrap_state(lines.drop_last());
        let l = lines.last();
        if open {
            (out.update(out.len() - 1, out.last() + l), !ends_line(l))
        } else {
            (out.push(l), !ends_line(l))
        }
    }
}

/// The width of the widest line.
pub open spec fn max_items_width(lines: Seq<Seq<Item>>) -> nat
    decreases lines.len(),
{
    if lines.len() == 0 {
        0
    } else {
        let m = max_items_width(lines.drop_last());
        let w = items_width(lines.last());
        if w > m { w } else { m }
    }
}

proof fn lemma_unwrap_open(lines: Seq<Seq<Item>>)
    ensures
        unwrap_state(lines).1 ==> unwrap_state(lines).0.len() > 0,
        lines.len() > 0 ==> unwrap_state(lines).0.len() > 0,
    decreases lines.len(),
{
    if lines.len() > 0 {
        lemma_unwrap_open(lines.drop_last());
    }
}

/// Plain text: lines of texts, control characters and line end marks, and
/// the width of the widest line.
#[derive(Debug)]
pub struct PlainText {
    pub lines: Vec<Vec<PlainTextItem>>,
    pub width: usize,
}

impl PlainText {
    /// The lines, with their items.
    pub open spec fn lines_v(&self) -> Seq<Seq<Item>> {
        plain_lines_view(self.lines@)
    }

    pub fn new() -> (r: Self)
        ensures
            r.lines_v() == Seq::<Seq<Item>>::empty(),
            r.width == 0,
    {
        let r = PlainText { lines: Vec::new(), width: 0 };
        assert(r.lines_v() =~= Seq::<Seq<Item>>::empty());
        r
    }

    pub fn lines(&self) -> (r: &[Vec<PlainTextItem>])
        ensures
            r@ == self.lines@,
    {
        self.lines.as_slice()
    }

    pub fn width(&self) -> (r: usize)
        ensures
            r == self.width,
    {
        self.width
    }

    pub fn height(&self) -> (r: usize)
        ensures
            r == self.lines_v().len(),
    {
        self.lines.len()
    }

    /// Removes every line.
    pub fn clear(&mut self)
        ensures
            final(self).lines_v() == Seq::<Seq<Item>>::empty(),
            final(self).width == 0,
    {
        self.lines.clear();
        self.width = 0;
        assert(self.lines_v() =~= Seq::<Seq<Item>>::empty());
    }

    pub fn into_inner(self) -> (r: Vec<Vec<PlainTextItem>>)
        ensures
            r@ == self.lines@,
    {
        self.lines
    }

    /// Widens every line to `width` columns with blanks at its end, where
    /// `width` is more than the current width, which it then becomes.
    pub fn right_pad(&mut self, width: usize)
        requires
            plain_widths_fit(old(self).lines_v()),
        ensures
            width > old(self).width ==> final(self).lines_v() == Seq::new(
                old(self).lines_v().len(),
                |i: int| plain_pad_right(old(self).lines_v()[i], items_width(old(self).lines_v()[i]), width as nat),
            ) && final(self).width == width,
            width <= old(self).width ==> final(self).lines_v() == old(self).lines_v() && final(self).width == old(self).width,
    {
        if width > self.width {
            let ghost l0 = self.lines_v();
            let mut i: usize = 0;
            while i < self.lines.len()
                invariant
                    i <= self.lines@.len(),
                    self.lines@.len() == l0.len(),
                    plain_widths_fit(l0),
                    forall|j: int| 0 <= j < i ==> #[trigger] self.lines_v()[j] == plain_pad_right(l0[j], items_width(l0[j]), width as nat),
                    forall|j: int| i <= j < l0.len() ==> #[trigger] self.lines_v()[j] == l0[j],
                decreases self.lines@.len() - i,
            {
                let ghost before = self.lines@;
                let ghost before_v = self.lines_v();
                assert(items_view(self.lines@[i as int]@) == l0[i as int]) by {
                    assert(self.lines_v()[i as int] == l0[i as int]);
                }
                let lw = line_width(self.lines[i].as_slice());
                plain_right_pad_line(&mut self.lines[i], lw, width);
                assert(self.lines@ =~= before.update(i as int, self.lines@[i as int]));
                assert(self.lines_v()[i as int] == plain_pad_right(l0[i as int], items_width(l0[i as int]), width as nat));
                assert forall|j: int| 0 <= j < l0.len() && j != i implies #[trigger] self.lines_v()[j] == before_v[j] by {
                    assert(self.lines@[j] == before[j]);
                }
                i += 1;
            }
            assert(self.lines_v() =~= Seq::new(l0.len(), |i: int| plain_pad_right(l0[i], items_width(l0[i]), width as nat)));
            self.width = width;
        }
    }

    /// Widens every line to `width` columns with blanks at its start, where
    /// `width` is more than the current width, which it then becomes.
    pub fn left_pad(&mut self, width: usize)
        requires
            plain_widths_fit(old(self).lines_v()),
        ensures
            width > old(self).width ==> final(self).lines_v() == Seq::new(
                old(self).lines_v().len(),
                |i: int| plain_pad_left(old(self).lines_v()[i], items_width(old(self).lines_v()[i]), width as nat),
            ) && final(self).width == width,
            width <= old(self).width ==> final(self).lines_v() == old(self).lines_v() && final(self).width == old(self).width,
    {
        if width > self.width {
            let ghost l0 = self.lines_v();
            let mut i: usize = 0;
            while i < self.lines.len()
                invariant
                    i <= self.lines@.len(),
                    self.lines@.len() == l0.len(),
                    plain_widths_fit(l0),
                    forall|j: int| 0 <= j < i ==> #[trigger] self.lines_v()[j] == plain_pad_left(l0[j], items_width(l0[j]), width as nat),
                    forall|j: int| i <= j < l0.len() ==> #[trigger] self.lines_v()[j] == l0[j],
                decreases self.lines@.len() - i,
            {
                let ghost before = self.lines@;
                let ghost before_v = self.lines_v();
                assert(items_view(self.lines@[i as int]@) == l0[i as int]) by {
                    assert(self.lines_v()[i as int] == l0[i as int]);
                }
                let lw = line_width(self.lines[i].as_slice());
                plain_left_pad_line(&mut self.lines[i], lw, width);
                assert(self.lines@ =~= before.update(i as int, self.lines@[i as int]));
                assert(self.lines_v()[i as int] == plain_pad_left(l0[i as int], items_width(l0[i as int]), width as nat));
                assert forall|j: int| 0 <= j < l0.len() && j != i implies #[trigger] self.lines_v()[j] == before_v[j] by {
                    assert(self.lines@[j] == before[j]);
                }
                i += 1;
            }
            assert(self.lines_v() =~= Seq::new(l0.len(), |i: int| plain_pad_left(l0[i], items_width(l0[i]), width as nat)));
            self.width = width;
        }
    }

    /// Puts empty lines in front until there are `height` lines.
    pub fn top_pad(&mut self, height: usize)
        ensures
            final(self).lines_v() == if height > old(self).lines_v().len() {
                empty_item_lines((height - old(self).lines_v().len()) as nat) + old(self).lines_v()
            } else {
                old(self).lines_v()
            },
            final(self).width == old(self).width,
    {
        if height > self.lines.len() {
            let mut new_lines: Vec<Vec<PlainTextItem>> = Vec::new();
            let count = height - self.lines.len();
            let mut k: usize = 0;
            while k < count
                invariant
                    k <= count,
                    plain_lines_view(new_lines@) == empty_item_lines(k as nat),
                decreases count - k,
            {
                let v: Vec<PlainTextItem> = Vec::new();
                assert(items_view(v@) =~= Seq::<Item>::empty());
                let ghost prev = new_lines@;
                new_lines.push(v);
                assert(plain_lines_view(new_lines@) =~= plain_lines_view(prev).push(Seq::<Item>::empty()));
                assert(plain_lines_view(new_lines@) =~= empty_item_lines((k + 1) as nat));
                k += 1;
            }
            let ghost l0 = self.lines_v();
            new_lines.append(&mut self.lines);
            self.lines = new_lines;
            assert(self.lines_v() =~= empty_item_lines(count as nat) + l0);
        }
    }

    /// Adds empty lines at the end until there are `height` lines.
    pub fn bottom_pad(&mut self, height: usize)
        ensures
            final(self).lines_v() == if height > old(self).lines_v().len() {
                old(self).lines_v() + empty_item_lines((height - old(self).lines_v().len()) as nat)
            } else {
                old(self).lines_v()
            },
            final(self).width == old(self).width,
    {
        if height > self.lines.len() {
            let count = height - self.lines.len();
            let ghost l0 = self.lines_v();
            let mut k: usize = 0;
            while k < count
                invariant
                    k <= count,
                    self.lines_v() == l0 + empty_item_lines(k as nat),
                    self.width == old(self).width,
                decreases count - k,
            {
                let v: Vec<PlainTextItem> = Vec::new();
                assert(items_view(v@) =~= Seq::<Item>::empty());
                let ghost prev = self.lines@;
                self.lines.push(v);
                assert(self.lines_v() =~= plain_lines_view(prev).push(Seq::<Item>::empty()));
                assert(self.lines_v() =~= l0 + empty_item_lines((k + 1) as nat));
                k += 1;
            }
        }
    }

    /// Puts the lines of `other` to the right of these; see
    /// [`plain_side_by_side`].  The width is the sum of the two widths.
    pub fn vertical_append(&mut self, other: &PlainText)
        requires
            old(self).width + other.width <= usize::MAX,
        ensures
            final(self).lines_v() == plain_side_by_side(old(self).lines_v(), other.lines_v(), old(self).width as nat),
            final(self).width == old(self).width + other.width,
    {
        let ghost a = self.lines_v();
        let ghost b = other.lines_v();
        let n = if self.lines.len() < other.lines.len() { self.lines.len() } else { other.lines.len() };
        let mut i: usize = 0;
        while i < n
            invariant
                i <= n,
                n <= a.len(),
                n <= b.len(),
                n == a.len() || n == b.len(),
                self.lines@.len() == a.len(),
                b == other.lines_v(),
                self.width == old(self).width,
                forall|j: int| 0 <= j < i ==> #[trigger] self.lines_v()[j] == a[j] + b[j],
                forall|j: int| i <= j < a.len() ==> #[trigger] self.lines_v()[j] == a[j],
            decreases n - i,
        {
            let ghost before = self.lines@;
            let ghost before_v = self.lines_v();
            assert(self.lines_v()[i as int] == a[i as int]);
            extend_items(&mut self.lines[i], other.lines[i].as_slice());
            proof {
                assert(self.lines@ =~= before.update(i as int, self.lines@[i as int]));
                assert(other.lines_v()[i as int] == items_view(other.lines@[i as int]@));
                assert(self.lines_v()[i as int] =~= a[i as int] + b[i as int]);
                assert forall|j: int| 0 <= j < a.len() && j != i implies #[trigger] self.lines_v()[j] == before_v[j] by {
                    assert(self.lines@[j] == before[j]);
                }
            }
            i += 1;
        }
        let w = self.width;
        let mut k = self.lines.len();
        while k < other.lines.len()
            invariant
                a.len() <= k,
                k <= b.len() || k == a.len(),
                b == other.lines_v(),
                self.lines@.len() == k,
                self.width == w,
                w == old(self).width,
                forall|j: int| 0 <= j < n ==> #[trigger] self.lines_v()[j] == a[j] + b[j],
                forall|j: int| n <= j < a.len() ==> #[trigger] self.lines_v()[j] == a[j],
                forall|j: int| a.len() <= j < k ==> #[trigger] self.lines_v()[j] == blank_items(w as nat) + b[j],
                n == a.len() || n == b.len(),
                n <= a.len(),
                n <= b.len(),
            decreases other.lines@.len() - k,
        {
            let mut line: Vec<PlainTextItem> = Vec::new();
            if w > 0 {
                line.push(PlainTextItem::Text { text: space_string(w), width: w });
            }
            assert(items_view(line@) =~= blank_items(w as nat));
            extend_items(&mut line, other.lines[k].as_slice());
            let ghost before = self.lines@;
            let ghost before_v = self.lines_v();
            self.lines.push(line);
            proof {
                assert(self.lines_v()[k as int] == blank_items(w as nat) + b[k as int]);
                assert forall|j: int| 0 <= j < k implies #[trigger] self.lines_v()[j] == before_v[j] by {
                    assert(self.lines@[j] == before[j]);
                }
            }
            k += 1;
        }
        assert(self.lines_v() =~= plain_side_by_side(a, b, old(self).width as nat));
        self.width = self.width + other.width;
    }

    /// Appends the text to `buf`: each line followed by a line feed; see
    /// [`text_chars`].
    pub fn write(&self, buf: &mut String)
        requires
            all_specials_ok(self.lines_v()),
        ensures
            final(buf)@ == old(buf)@ + text_chars(self.lines_v()),
    {
        let ghost start = buf@;
        let mut i: usize = 0;
        while i < self.lines.len()
            invariant
                i <= self.lines@.len(),
                all_specials_ok(self.lines_v()),
                buf@ == start + text_chars(self.lines_v().take(i as int)),
            decreases self.lines@.len() - i,
        {
            let ghost before = buf@;
            assert(specials_ok(self.lines_v()[i as int]));
            assert(self.lines_v()[i as int] == items_view(self.lines@[i as int]@));
            write_line(buf, self.lines[i].as_slice());
            push_char(buf, '\n');
            proof {
                assert(self.lines_v().take(i + 1).drop_last() =~= self.lines_v().take(i as int));
                assert(self.lines_v()[i as int] == items_view(self.lines@[i as int]@));
                assert(buf@ =~= start + text_chars(self.lines_v().take(i + 1)));
            }
            i += 1;
        }
        assert(self.lines_v().take(i as int) =~= self.lines_v());
    }


    /// Number of bytes that [`PlainText::write`] adds: the length of the
    /// UTF-8 encoding of [`text_chars`].
    pub fn write_len(&self) -> (r: usize)
        requires
            byte_len(text_chars(self.lines_v())) <= usize::MAX,
            all_specials_ok(self.lines_v()),
        ensures
            r == byte_len(text_chars(self.lines_v())),
    {
        let ghost ls = self.lines_v();
        let mut len: usize = 0;
        let mut i: usize = 0;
        while i < self.lines.len()
            invariant
                i <= ls.len(),
                ls == self.lines_v(),
                byte_len(text_chars(ls)) <= usize::MAX,
                all_specials_ok(ls),
                len == byte_len(text_chars(ls.take(i as int))),
            decreases ls.len() - i,
        {
            proof {
                assert(ls.take(i + 1).drop_last() =~= ls.take(i as int));
                assert(ls.take(i + 1).last() == ls[i as int]);
                assert(ls[i as int] == items_view(self.lines@[i as int]@));
                assert(specials_ok(ls[i as int]));
                lemma_byte_len_concat(text_chars(ls.take(i as int)) + line_chars(ls[i as int]), seq!['\n']);
                lemma_byte_len_concat(text_chars(ls.take(i as int)), line_chars(ls[i as int]));
                lemma_text_chars_split(ls, i + 1);
                lemma_byte_len_concat(text_chars(ls.take(i + 1)), text_chars(ls.skip(i + 1)));
                assert(seq!['\n'].drop_last() =~= Seq::<char>::empty());
                assert(byte_len(seq!['\n']) == 1) by {
                    reveal_with_fuel(byte_len, 2);
                }
                assert(text_chars(ls.take(i + 1)) == text_chars(ls.take(i as int)) + line_chars(ls[i as int]) + seq!['\n']);
            }
            let l = line_byte_len(self.lines[i].as_slice());
            len = len + l + 1;
            i += 1;
        }
        assert(ls.take(i as int) =~= ls);
        len
    }

    /// The text as a string; see [`text_chars`].
    pub fn to_string(&self) -> (r: String)
        requires
            all_specials_ok(self.lines_v()),
        ensures
            r@ == text_chars(self.lines_v()),
    {
        let mut buf = String::new();
        self.write(&mut buf);
        assert(buf@ =~= text_chars(self.lines_v()));
        buf
    }


    /// The text as bytes for a terminal, control characters shown by their
    /// symbols in the control style; see [`print_bytes`].
    pub fn print(&self) -> (r: Vec<u8>)
        requires
            all_specials_ok(self.lines_v()),
        ensures
            r@ == print_bytes(self.lines_v()),
    {
        let ghost ls = self.lines_v();
        let mut out: Vec<u8> = Vec::new();
        let mut i: usize = 0;
        while i < self.lines.len()
            invariant
                i <= ls.len(),
                ls == self.lines_v(),
                all_specials_ok(ls),
                out@ == print_bytes(ls.take(i as int)),
            decreases ls.len() - i,
        {
            proof {
                assert(ls[i as int] == items_view(self.lines@[i as int]@));
                assert(specials_ok(ls[i as int]));
            }
            print_line(&mut out, self.lines[i].as_slice());
            out.push(10u8);
            proof {
                assert(ls.take(i + 1).drop_last() =~= ls.take(i as int));
                assert(ls.take(i + 1).last() == ls[i as int]);
                assert(out@ =~= print_bytes(ls.take(i + 1)));
            }
            i += 1;
        }
        assert(ls.take(i as int) =~= ls);
        out
    }

    /// Joins lines that were broken by wrapping; see [`unwrap_state`].  The
    /// width is that of the widest joined line.
    pub fn unwrap(&self) -> (r: PlainText)
        requires
            plain_widths_fit(unwrap_state(self.lines_v()).0),
        ensures
            r.lines_v() == unwrap_state(self.lines_v()).0,
            r.width == max_items_width(unwrap_state(self.lines_v()).0),
    {
        let ghost ls = self.lines_v();
        let ghost fin = unwrap_state(ls).0;
        let mut new_lines: Vec<Vec<PlainTextItem>> = Vec::new();
        let mut open = false;
        let mut width: usize = 0;
        let mut i: usize = 0;
        assert(ls.take(0) =~= Seq::<Seq<Item>>::empty());
        while i < self.lines.len()
            invariant
                i <= ls.len(),
                ls == self.lines_v(),
                fin == unwrap_state(ls).0,
                plain_widths_fit(fin),
                (plain_lines_view(new_lines@), open) == unwrap_state(ls.take(i as int)),
                width == max_items_width(closed_lines(plain_lines_view(new_lines@), open)),
            decreases ls.len() - i,
        {
            let ghost before = plain_lines_view(new_lines@);
            proof {
                assert(ls.take(i + 1).drop_last() =~= ls.take(i as int));
                assert(ls.take(i + 1).last() == ls[i as int]);
                assert(ls[i as int] == items_view(self.lines@[i as int]@));
                lemma_unwrap_open(ls.take(i as int));
            }
            let line = self.lines[i].as_slice();
            if open {
                let mut last = new_lines.pop().unwrap();
                proof {
                    assert(before =~= plain_lines_view(new_lines@).push(items_view(last@)));
                }
                extend_items(&mut last, line);
                new_lines.push(last);
                assert(plain_lines_view(new_lines@) =~= before.update(before.len() - 1, before.last() + items_view(line@)));
            } else {
                let copy = copy_line(line);
                new_lines.push(copy);
                assert(plain_lines_view(new_lines@) =~= before.push(items_view(line@)));
            }
            let ends = line.len() > 0 && match &line[line.len() - 1] {
                PlainTextItem::Newline => true,
                _ => false,
            };
            proof {
                if line@.len() > 0 {
                    assert(items_view(line@).last() == line@[line@.len() - 1]@);
                }
                assert(ends == ends_line(items_view(line@)));
            }
            let ghost was_open = open;
            open = !ends;
            proof {
                assert(ls.take(i + 1) =~= ls.take(i as int).push(ls[i as int]));
                lemma_closed_step(ls.take(i as int), ls[i as int]);
            }
            if !open {
                let ghost nl = plain_lines_view(new_lines@);
                proof {
                    lemma_unwrap_prefix(ls, (i + 1) as nat, ls.len() as nat);
                    lemma_closed_in_final(ls);
                    assert(nl[nl.len() - 1] == fin[nl.len() - 1]);
                    assert(items_width(fin[nl.len() - 1]) <= usize::MAX);
                    assert(nl[nl.len() - 1] == items_view(new_lines@[nl.len() - 1]@));
                    assert(nl.drop_last().push(nl.last()) =~= nl);
                }
                let lw = line_width(new_lines[new_lines.len() - 1].as_slice());
                if lw > width {
                    width = lw;
                }
                proof {
                    lemma_max_width_push(closed_lines(before, was_open), nl.last());
                }
            }
            i += 1;
        }
        assert(ls.take(i as int) =~= ls);
        if open {
            let ghost nl = plain_lines_view(new_lines@);
            proof {
                lemma_unwrap_open(ls);
                assert(nl[nl.len() - 1] == items_view(new_lines@[nl.len() - 1]@));
                assert(items_width(fin[nl.len() - 1]) <= usize::MAX);
                assert(nl.drop_last().push(nl.last()) =~= nl);
            }
            let lw = line_width(new_lines[new_lines.len() - 1].as_slice());
            if lw > width {
                width = lw;
            }
            proof {
                lemma_max_width_push(nl.drop_last(), nl.last());
            }
        }
        PlainText { lines: new_lines, width }
    }
}

/// Widens a line of `line_width` columns to `width` with blanks at its
/// end; see [`plain_pad_right`].
fn plain_right_pad_line(line: &mut Vec<PlainTextItem>, line_width: usize, width: usize)
    requires
        line_width as nat == items_width(items_view(old(line)@)),
    ensures
        items_view(final(line)@) == plain_pad_right(items_view(old(line)@), line_width as nat, width as nat),
{
    if line_width < width {
        let extra = width - line_width;
        let ghost l0 = items_view(line@);
        match line.pop() {
            Some(PlainTextItem::Text { text, width: tw }) => {
                proof {
                    assert(l0 =~= items_view(line@).push(Item::Text { text: text@, width: tw as nat }));
                    assert(l0.drop_last() =~= items_view(line@));
                }
                let mut t = text;
                push_spaces(&mut t, extra);
                line.push(PlainTextItem::Text { text: t, width: tw + extra });
                assert(items_view(line@) =~= plain_pad_right(l0, line_width as nat, width as nat));
            },
            Some(c) => {
                line.push(c);
                assert(items_view(line@) =~= l0);
                line.push(PlainTextItem::Text { text: space_string(extra), width: extra });
                assert(items_view(line@) =~= plain_pad_right(l0, line_width as nat, width as nat));
            },
            None => {
                line.push(PlainTextItem::Text { text: space_string(extra), width: extra });
                assert(items_view(line@) =~= plain_pad_right(l0, line_width as nat, width as nat));
            },
        }
    }
}

/// Widens a line of `line_width` columns to `width` with blanks at its
/// start; see [`plain_pad_left`].
fn plain_left_pad_line(line: &mut Vec<PlainTextItem>, line_width: usize, width: usize)
    requires
        line_width as nat == items_width(items_view(old(line)@)),
    ensures
        items_view(final(line)@) == plain_pad_left(items_view(old(line)@), line_width as nat, width as nat),
{
    if line_width < width {
        let extra = width - line_width;
        let ghost l0 = items_view(line@);
        if line.len() > 0 {
            let first = line.remove(0);
            match first {
                PlainTextItem::Text { text, width: tw } => {
                    proof {
                        assert(l0 =~= seq![Item::Text { text: text@, width: tw as nat }] + items_view(line@));
                        lemma_first_item_width(l0);
                    }
                    let mut t = space_string(extra);
                    let tv = to_chars(text.as_str());
                    let mut j: usize = 0;
                    while j < tv.len()
                        invariant
                            j <= tv@.len(),
                            tv@ == text@,
                            t@ == spaces(extra as nat) + tv@.take(j as int),
                        decreases tv.len() - j,
                    {
                        push_char(&mut t, tv[j]);
                        assert(spaces(extra as nat) + tv@.take(j + 1) =~= (spaces(extra as nat) + tv@.take(j as int)).push(tv@[j as int]));
                        j += 1;
                    }
                    assert(tv@.take(j as int) =~= tv@);
                    line.insert(0, PlainTextItem::Text { text: t, width: tw + extra });
                    assert(items_view(line@) =~= plain_pad_left(l0, line_width as nat, width as nat));
                },
                c => {
                    line.insert(0, c);
                    assert(items_view(line@) =~= l0);
                    line.insert(0, PlainTextItem::Text { text: space_string(extra), width: extra });
                    assert(items_view(line@) =~= plain_pad_left(l0, line_width as nat, width as nat));
                },
            }
        } else {
            line.insert(0, PlainTextItem::Text { text: space_string(extra), width: extra });
            assert(items_view(line@) =~= plain_pad_left(l0, line_width as nat, width as nat));
        }
    }
}

/// Appends the characters of a line; see [`line_chars`].
fn write_line(buf: &mut String, line: &[PlainTextItem])
    requires
        specials_ok(items_view(line@)),
    ensures
        final(buf)@ == old(buf)@ + line_chars(items_view(line@)),
{
    let ghost start = buf@;
    let mut i: usize = 0;
    while i < line.len()
        invariant
            i <= line@.len(),
            specials_ok(items_view(line@)),
            buf@ == start + line_chars(items_view(line@.take(i as int))),
        decreases line.len() - i,
    {
        proof {
            assert(items_view(line@.take(i + 1)).drop_last() =~= items_view(line@.take(i as int)));
            assert(items_view(line@.take(i + 1)).last() == line@[i as int]@);
        }
        let ghost before = buf@;
        match &line[i] {
            PlainTextItem::Special(c) => {
                assert(items_view(line@)[i as int] == line@[i as int]@);
                let s = plain_symbol(*c);
                push_char(buf, s);
            },
            PlainTextItem::Text { text, .. } => {
                let tv = to_chars(text.as_str());
                let mut j: usize = 0;
                while j < tv.len()
                    invariant
                        j <= tv@.len(),
                        tv@ == text@,
                        buf@ == before + tv@.take(j as int),
                    decreases tv.len() - j,
                {
                    push_char(buf, tv[j]);
                    assert(before + tv@.take(j + 1) =~= (before + tv@.take(j as int)).push(tv@[j as int]));
                    j += 1;
                }
                assert(tv@.take(j as int) =~= tv@);
            },
            PlainTextItem::Newline => {},
        }
        assert(buf@ =~= start + line_chars(items_view(line@.take(i + 1))));
        i += 1;
    }
    assert(line@.take(i as int) =~= line@);
}


pub proof fn lemma_byte_len_concat(a: Seq<char>, b: Seq<char>)
    ensures
        byte_len(a + b) == byte_len(a) + byte_len(b),
    decreases b.len(),
{
    if b.len() == 0 {
        assert(a + b =~= a);
    } else {
        assert((a + b).drop_last() =~= a + b.drop_last());
        lemma_byte_len_concat(a, b.drop_last());
    }
}

pub proof fn lemma_text_chars_concat(a: Seq<Seq<Item>>, b: Seq<Seq<Item>>)
    ensures
        text_chars(a + b) == text_chars(a) + text_chars(b),
    decreases b.len(),
{
    if b.len() == 0 {
        assert(a + b =~= a);
        assert(text_chars(a) + text_chars(b) =~= text_chars(a));
    } else {
        assert((a + b).drop_last() =~= a + b.drop_last());
        lemma_text_chars_concat(a, b.drop_last());
        assert(text_chars(a + b) =~= text_chars(a) + text_chars(b));
    }
}

pub proof fn lemma_text_chars_split(ls: Seq<Seq<Item>>, k: int)
    requires
        0 <= k <= ls.len(),
    ensures
        text_chars(ls) == text_chars(ls.take(k)) + text_chars(ls.skip(k)),
{
    assert(ls =~= ls.take(k) + ls.skip(k));
    lemma_text_chars_concat(ls.take(k), ls.skip(k));
}

/// Number of bytes of the characters of a line; see [`line_chars`].
fn line_byte_len(line: &[PlainTextItem]) -> (r: usize)
    requires
        specials_ok(items_view(line@)),
        byte_len(line_chars(items_view(line@))) < usize::MAX,
    ensures
        r == byte_len(line_chars(items_view(line@))),
{
    let mut len: usize = 0;
    let mut i: usize = 0;
    while i < line.len()
        invariant
            i <= line@.len(),
            specials_ok(items_view(line@)),
            byte_len(line_chars(items_view(line@))) < usize::MAX,
            len == byte_len(line_chars(items_view(line@.take(i as int)))),
        decreases line.len() - i,
    {
        proof {
            assert(items_view(line@.take(i + 1)).drop_last() =~= items_view(line@.take(i as int)));
            assert(items_view(line@.take(i + 1)).last() == line@[i as int]@);
            lemma_byte_len_concat(line_chars(items_view(line@.take(i as int))), item_chars(line@[i as int]@));
            lemma_line_chars_split(items_view(line@), i + 1);
            assert(items_view(line@).take(i + 1) =~= items_view(line@.take(i + 1)));
            lemma_byte_len_concat(line_chars(items_view(line@.take(i + 1))), line_chars(items_view(line@).skip(i + 1)));
        }
        match &line[i] {
            PlainTextItem::Special(c) => {
                assert(items_view(line@)[i as int] == line@[i as int]@);
                let sym = plain_symbol(*c);
                proof {
                    assert(seq![sym].drop_last() =~= Seq::<char>::empty());
                    assert(byte_len(seq![sym]) == utf8_len(sym)) by {
                        reveal_with_fuel(byte_len, 2);
                    }
                }
                len = len + len_utf8(sym);
            },
            PlainTextItem::Text { text, .. } => {
                let tv = to_chars(text.as_str());
                let ghost base = len;
                let mut j: usize = 0;
                while j < tv.len()
                    invariant
                        j <= tv@.len(),
                        tv@ == text@,
                        base + byte_len(text@) < usize::MAX,
                        len == base + byte_len(tv@.take(j as int)),
                    decreases tv.len() - j,
                {
                    proof {
                        assert(tv@.take(j + 1) =~= tv@.take(j as int).push(tv@[j as int]));
                        lemma_byte_len_push(tv@.take(j as int), tv@[j as int]);
                        assert(tv@ =~= tv@.take(j + 1) + tv@.skip(j + 1));
                        lemma_byte_len_concat(tv@.take(j + 1), tv@.skip(j + 1));
                    }
                    len = len + len_utf8(tv[j]);
                    j += 1;
                }
                assert(tv@.take(j as int) =~= tv@);
            },
            PlainTextItem::Newline => {},
        }
        assert(line_chars(items_view(line@.take(i + 1))) == line_chars(items_view(line@.take(i as int))) + item_chars(line@[i as int]@));
        i += 1;
    }
    assert(line@.take(i as int) =~= line@);
    len
}

pub proof fn lemma_line_chars_concat(a: Seq<Item>, b: Seq<Item>)
    ensures
        line_chars(a + b) == line_chars(a) + line_chars(b),
    decreases b.len(),
{
    if b.len() == 0 {
        assert(a + b =~= a);
        assert(line_chars(a) + line_chars(b) =~= line_chars(a));
    } else {
        assert((a + b).drop_last() =~= a + b.drop_last());
        lemma_line_chars_concat(a, b.drop_last());
        assert(line_chars(a + b) =~= line_chars(a) + line_chars(b));
    }
}

pub proof fn lemma_line_chars_split(l: Seq<Item>, k: int)
    requires
        0 <= k <= l.len(),
    ensures
        line_chars(l) == line_chars(l.take(k)) + line_chars(l.skip(k)),
{
    assert(l =~= l.take(k) + l.skip(k));
    lemma_line_chars_concat(l.take(k), l.skip(k));
}

/// Appends the printed bytes of a line; see [`line_item_bytes`].
fn print_line(out: &mut Vec<u8>, line: &[PlainTextItem])
    requires
        specials_ok(items_view(line@)),
    ensures
        final(out)@ == old(out)@ + line_item_bytes(items_view(line@)),
{
    let ghost start = out@;
    let d = default_style_value();
    let ctl = control_style_value();
    let mut i: usize = 0;
    while i < line.len()
        invariant
            i <= line@.len(),
            specials_ok(items_view(line@)),
            d == default_style(),
            ctl == control_style(),
            out@ == start + line_item_bytes(items_view(line@.take(i as int))),
        decreases line.len() - i,
    {
        proof {
            assert(items_view(line@.take(i + 1)).drop_last() =~= items_view(line@.take(i as int)));
            assert(items_view(line@.take(i + 1)).last() == line@[i as int]@);
        }
        let ghost before = out@;
        match &line[i] {
            PlainTextItem::Special(c) => {
                assert(items_view(line@)[i as int] == line@[i as int]@);
                let mut pre = d.write_diff(&ctl);
                out.append(&mut pre);
                let sym = plain_symbol(*c);
                let mut s = String::new();
                push_char(&mut s, sym);
                assert(s@ =~= seq![control_symbol(*c)]);
                push_str_bytes(out, s.as_str());
                let mut post = ctl.write_diff(&d);
                out.append(&mut post);
            },
            PlainTextItem::Text { text, .. } => {
                push_str_bytes(out, text.as_str());
            },
            PlainTextItem::Newline => {},
        }
        assert(out@ =~= start + line_item_bytes(items_view(line@.take(i + 1))));
        i += 1;
    }
    assert(line@.take(i as int) =~= line@);
}

/// Appends the UTF-8 encoding of `s`.
pub fn push_str_bytes(out: &mut Vec<u8>, s: &str)
    ensures
        final(out)@ == old(out)@ + vstd::utf8::encode_utf8(s@),
{
    let b = s.as_bytes();
    let ghost start = out@;
    let mut j: usize = 0;
    while j < b.len()
        invariant
            j <= b@.len(),
            b@ == vstd::utf8::encode_utf8(s@),
            out@ == start + b@.take(j as int),
        decreases b.len() - j,
    {
        out.push(b[j]);
        assert(start + b@.take(j + 1) =~= (start + b@.take(j as int)).push(b@[j as int]));
        j += 1;
    }
    assert(b@.take(j as int) =~= b@);
}

/// The lines that can no longer change: all but an open last one.
pub open spec fn closed_lines(out: Seq<Seq<Item>>, open: bool) -> Seq<Seq<Item>> {
    if open && out.len() > 0 { out.drop_last() } else { out }
}

pub open spec fn is_prefix_of(a: Seq<Seq<Item>>, b: Seq<Seq<Item>>) -> bool {
    a.len() <= b.len() && forall|j: int| 0 <= j < a.len() ==> #[trigger] a[j] == b[j]
}

/// One more line keeps the lines that could no longer change, and the
/// width of those is tracked by the widest of them.
proof fn lemma_closed_step(ls: Seq<Seq<Item>>, l: Seq<Item>)
    ensures
        is_prefix_of(closed_lines(unwrap_state(ls).0, unwrap_state(ls).1),
            closed_lines(unwrap_state(ls.push(l)).0, unwrap_state(ls.push(l)).1)),
        unwrap_state(ls.push(l)).1 ==> closed_lines(unwrap_state(ls.push(l)).0, true)
            == closed_lines(unwrap_state(ls).0, unwrap_state(ls).1),
        !unwrap_state(ls.push(l)).1 ==> closed_lines(unwrap_state(ls.push(l)).0, false)
            == closed_lines(unwrap_state(ls).0, unwrap_state(ls).1).push(unwrap_state(ls.push(l)).0.last()),
{
    assert(ls.push(l).drop_last() =~= ls);
    assert(ls.push(l).last() == l);
    lemma_unwrap_open(ls);
    lemma_unwrap_open(ls.push(l));
    let (o, op) = unwrap_state(ls);
    let (o2, op2) = unwrap_state(ls.push(l));
    if op {
        assert(o2 =~= o.update(o.len() - 1, o.last() + l));
        assert(o2.drop_last() =~= o.drop_last());
        if !op2 {
            assert(o2 =~= o.drop_last().push(o2.last()));
        }
    } else {
        assert(o2 =~= o.push(l));
        assert(o2.drop_last() =~= o);
    }
}

/// Lines that could no longer change after `k` input lines are still
/// there after `m`.
proof fn lemma_unwrap_prefix(ls: Seq<Seq<Item>>, k: nat, m: nat)
    requires
        k <= m <= ls.len(),
    ensures
        is_prefix_of(closed_lines(unwrap_state(ls.take(k as int)).0, unwrap_state(ls.take(k as int)).1),
            closed_lines(unwrap_state(ls.take(m as int)).0, unwrap_state(ls.take(m as int)).1)),
    decreases m - k,
{
    if k < m {
        lemma_unwrap_prefix(ls, k, (m - 1) as nat);
        assert(ls.take(m as int) =~= ls.take(m - 1).push(ls[m - 1]));
        lemma_closed_step(ls.take(m - 1), ls[m - 1]);
    }
}

/// The lines that could no longer change at the end are lines of the
/// result.
proof fn lemma_closed_in_final(ls: Seq<Seq<Item>>)
    ensures
        is_prefix_of(closed_lines(unwrap_state(ls).0, unwrap_state(ls).1), unwrap_state(ls).0),
        unwrap_state(ls.take(ls.len() as int)) == unwrap_state(ls),
{
    assert(ls.take(ls.len() as int) =~= ls);
}

proof fn lemma_max_width_push(ls: Seq<Seq<Item>>, l: Seq<Item>)
    ensures
        max_items_width(ls.push(l)) == if items_width(l) > max_items_width(ls) { items_width(l) } else { max_items_width(ls) },
{
    assert(ls.push(l).drop_last() =~= ls);
}

/// The symbol shown for the character of a control item.
pub(crate) fn plain_symbol(c: char) -> (r: char)
    requires
        crate::text::spec_is_ascii_control(c),
    ensures
        r == control_symbol(c),
{
    if c == '\x7F' {
        '\u{2421}'
    } else {
        match char_from_u32((c as u32) + 0x2400) {
            Some(s) => s,
            None => ' ',
        }
    }
}

} // verus!

verus! {

/// Parsing state of plain text: the lines, the width of the widest
/// finished line, the width of the current line, that width where the
/// last control character ended, and the start of the run of ordinary
/// characters not yet added.
pub ghost struct PlainState {
    pub lines: Seq<Seq<Item>>,
    pub width: nat,
    pub lw: nat,
    pub pw: nat,
    pub prev: int,
}

/// `run`, `w` columns wide, added to a line: it joins a text that ends
/// the line, or becomes a text of its own.
pub open spec fn join_run(line: Seq<Item>, run: Seq<char>, w: nat) -> Seq<Item> {
    if line.len() > 0 && line.last() is Text {
        line.update(line.len() - 1, Item::Text { text: line.last()->text + run, width: line.last()->width + w })
    } else {
        line.push(Item::Text { text: run, width: w })
    }
}

/// `it` added to the last line.
pub open spec fn push_item(lines: Seq<Seq<Item>>, it: Item) -> Seq<Seq<Item>> {
    lines.update(lines.len() - 1, lines.last().push(it))
}

/// Adds the pending run `t[prev..i]` to the last line, counted as the
/// columns since the last control character (see [`join_run`]).
pub open spec fn plain_flush(st: PlainState, t: Seq<char>, i: int) -> PlainState {
    if st.prev < i {
        PlainState {
            lines: st.lines.update(
                st.lines.len() - 1,
                join_run(st.lines.last(), t.subrange(st.prev, i), (st.lw - st.pw) as nat),
            ),
            ..st
        }
    } else {
        st
    }
}

/// Character `i`: a line feed ends the pending run and the line, which is
/// marked as ended; another control character ends the pending run and is
/// added as a control item one column wide; any other character is
/// counted.
pub open spec fn plain_step(st: PlainState, t: Seq<char>, ws: Seq<i32>, i: int) -> PlainState {
    let c = t[i];
    if c == '\n' {
        let s1 = plain_flush(st, t, i);
        PlainState {
            lines: push_item(s1.lines, Item::Newline).push(Seq::<Item>::empty()),
            width: if s1.lw > s1.width { s1.lw } else { s1.width },
            lw: 0,
            pw: 0,
            prev: i + 1,
        }
    } else if crate::text::spec_is_ascii_control(c) {
        let s1 = plain_flush(st, t, i);
        PlainState {
            lines: push_item(s1.lines, Item::Special(c)),
            lw: s1.lw + 1,
            pw: s1.lw + 1,
            prev: i + 1,
            ..s1
        }
    } else {
        PlainState { lw: st.lw + crate::char_width::visible(ws[i]), ..st }
    }
}

/// The state after the first `n` characters.
pub open spec fn plain_run(st0: PlainState, t: Seq<char>, ws: Seq<i32>, n: int) -> PlainState
    decreases n,
{
    if n <= 0 {
        st0
    } else {
        plain_step(plain_run(st0, t, ws, n - 1), t, ws, n - 1)
    }
}

/// The lines the text is appended to: a new line is started where there
/// is none or the last one has ended.
pub open spec fn plain_start_lines(lines: Seq<Seq<Item>>) -> Seq<Seq<Item>> {
    if lines.len() == 0 || ends_line(lines.last()) { lines.push(Seq::<Item>::empty()) } else { lines }
}

/// Lines and width after `t` (with widths `ws`) is appended.  The run of
/// text that continues a text of the last line is counted from the start
/// of that line.
pub open spec fn plain_append_result(lines: Seq<Seq<Item>>, width: nat, t: Seq<char>, ws: Seq<i32>) -> (Seq<Seq<Item>>, nat) {
    let l0 = plain_start_lines(lines);
    let st0 = PlainState { lines: l0, width, lw: items_width(l0.last()), pw: 0, prev: 0 };
    let s1 = plain_flush(plain_run(st0, t, ws, t.len() as int), t, t.len() as int);
    (s1.lines, if s1.lw > s1.width { s1.lw } else { s1.width })
}

/// Room for appending `n` characters: twice the width of the line the
/// text continues, plus two columns for every character, fits in a
/// `usize`.
pub open spec fn plain_room(lines: Seq<Seq<Item>>, n: nat) -> bool {
    2 * items_width(plain_start_lines(lines).last()) + 2 * n <= usize::MAX
}

/// The last item of a line is no wider than the line.
proof fn lemma_last_item_width(line: Seq<Item>)
    requires
        line.len() > 0,
    ensures
        item_width(line.last()) <= items_width(line),
{
}

/// Adds the run `t[prev..i]`, `w` columns wide, to `line`; see
/// [`join_run`].
fn join_run_exec(line: &mut Vec<PlainTextItem>, t: &[char], prev: usize, i: usize, w: usize)
    requires
        prev < i <= t@.len(),
        old(line)@.len() > 0 && old(line)@.last()@ is Text ==> old(line)@.last()@->width + w <= usize::MAX,
    ensures
        items_view(final(line)@) == join_run(items_view(old(line)@), t@.subrange(prev as int, i as int), w as nat),
{
    let ghost l0 = items_view(line@);
    let ghost run = t@.subrange(prev as int, i as int);
    match line.pop() {
        Some(PlainTextItem::Text { text, width: tw }) => {
            proof {
                assert(l0 =~= items_view(line@).push(Item::Text { text: text@, width: tw as nat }));
            }
            let mut s = text;
            let mut j = prev;
            while j < i
                invariant
                    prev <= j <= i <= t@.len(),
                    s@ == text@ + t@.subrange(prev as int, j as int),
                decreases i - j,
            {
                push_char(&mut s, t[j]);
                assert(text@ + t@.subrange(prev as int, j + 1) =~= (text@ + t@.subrange(prev as int, j as int)).push(t@[j as int]));
                j += 1;
            }
            line.push(PlainTextItem::Text { text: s, width: tw + w });
            assert(items_view(line@) =~= join_run(l0, run, w as nat));
        },
        Some(c) => {
            line.push(c);
            assert(items_view(line@) =~= l0);
            let s = crate::text::string_from_chars(t, prev, i);
            line.push(PlainTextItem::Text { text: s, width: w });
            assert(items_view(line@) =~= join_run(l0, run, w as nat));
        },
        None => {
            let s = crate::text::string_from_chars(t, prev, i);
            line.push(PlainTextItem::Text { text: s, width: w });
            assert(items_view(line@) =~= join_run(l0, run, w as nat));
        },
    }
}

/// Adds a control item for `c` at the end of `line`.
fn push_special(line: &mut Vec<PlainTextItem>, c: char)
    ensures
        items_view(final(line)@) == items_view(old(line)@).push(Item::Special(c)),
{
    line.push(PlainTextItem::Special(c));
    assert(items_view(line@) =~= items_view(old(line)@).push(Item::Special(c)));
}

/// Adds `it` at the end of `line`.
fn push_plain_item(line: &mut Vec<PlainTextItem>, it: PlainTextItem)
    ensures
        items_view(final(line)@) == items_view(old(line)@).push(it@),
{
    line.push(it);
    assert(items_view(line@) =~= items_view(old(line)@).push(it@));
}

/// The widest text of a line is bounded by `b` where the line ends with a
/// text.
pub open spec fn last_text_within(line: Seq<Item>, b: nat) -> bool {
    line.len() > 0 && line.last() is Text ==> line.last()->width <= b
}

impl PlainText {
    /// Appends `text`, with widths `widths` for its characters; see
    /// [`plain_append_result`].
    #[verifier::spinoff_prover]
    pub fn append(&mut self, text: &str, widths: &[i32])
        requires
            widths@.len() == text@.len(),
            valid_widths(widths@),
            plain_room(old(self).lines_v(), text@.len()),
        ensures
            (final(self).lines_v(), final(self).width as nat)
                == plain_append_result(old(self).lines_v(), old(self).width as nat, text@, widths@),
    {
        let t = to_chars(text);
        let ghost ts = t@;
        let ghost ws = widths@;
        let start_new = if self.lines.len() == 0 {
            true
        } else {
            let last = &self.lines[self.lines.len() - 1];
            last.len() > 0 && match &last[last.len() - 1] {
                PlainTextItem::Newline => true,
                _ => false,
            }
        };
        proof {
            if self.lines@.len() > 0 {
                let ll = self.lines@[self.lines@.len() - 1];
                assert(self.lines_v().last() == items_view(ll@));
                if ll@.len() > 0 {
                    assert(items_view(ll@).last() == ll@[ll@.len() - 1]@);
                }
            }
            assert(start_new == (self.lines_v().len() == 0 || ends_line(self.lines_v().last())));
        }
        if start_new {
            let v: Vec<PlainTextItem> = Vec::new();
            assert(items_view(v@) =~= Seq::<Item>::empty());
            let ghost prev = self.lines@;
            self.lines.push(v);
            assert(self.lines_v() =~= plain_lines_view(prev).push(Seq::<Item>::empty()));
        }
        let ghost l0 = self.lines_v();
        assert(l0 == plain_start_lines(old(self).lines_v()));
        let ghost lw0 = items_width(l0.last());
        let ghost st0 = PlainState { lines: l0, width: self.width as nat, lw: lw0, pw: 0, prev: 0 };
        proof {
            if l0.last().len() > 0 {
                lemma_last_item_width(l0.last());
            }
            assert(l0.last() == items_view(self.lines@[self.lines@.len() - 1]@));
        }
        let mut lw = line_width(self.lines[self.lines.len() - 1].as_slice());
        let mut pw: usize = 0;
        let mut prev: usize = 0;
        let n = t.len();
        let mut i: usize = 0;
        while i < n
            invariant
                n == ts.len(),
                ts == t@,
                ws == widths@,
                ws.len() == n,
                valid_widths(ws),
                i <= n,
                prev <= i,
                2 * lw0 + 2 * n <= usize::MAX,
                lw <= lw0 + 2 * i,
                pw <= lw,
                self.lines@.len() > 0,
                last_text_within(self.lines_v().last(), lw0),
                ({
                    let st = plain_run(st0, ts, ws, i as int);
                    &&& st.lines == self.lines_v()
                    &&& st.width == self.width
                    &&& st.lw == lw
                    &&& st.pw == pw
                    &&& st.prev == prev
                }),
            decreases n - i,
        {
            let ch = crate::text::char_at(t.as_slice(), i);
            let ghost st = plain_run(st0, ts, ws, i as int);
            assert(plain_run(st0, ts, ws, i + 1) == plain_step(st, ts, ws, i as int));
            let k = self.lines.len() - 1;
            if is_ascii_control(ch) {
                if prev < i {
                    let ghost before = self.lines@;
                    let ghost bv = self.lines_v();
                    assert(bv.last() == items_view(self.lines@[k as int]@));
                    join_run_exec(&mut self.lines[k], t.as_slice(), prev, i, lw - pw);
                    proof {
                        assert(self.lines@ =~= before.update(k as int, self.lines@[k as int]));
                        assert(self.lines_v() =~= plain_flush(st, ts, i as int).lines);
                    }
                }
                let ghost s1 = plain_flush(st, ts, i as int);
                assert(s1.lines == self.lines_v());
                if ch == '\n' {
                    let ghost before = self.lines@;
                    let ghost bv = self.lines_v();
                    assert(bv.last() == items_view(self.lines@[k as int]@));
                    push_plain_item(&mut self.lines[k], PlainTextItem::Newline);
                    proof {
                        assert(self.lines@ =~= before.update(k as int, self.lines@[k as int]));
                        assert(self.lines_v() =~= push_item(s1.lines, Item::Newline));
                    }
                    if lw > self.width {
                        self.width = lw;
                    }
                    lw = 0;
                    pw = 0;
                    let v: Vec<PlainTextItem> = Vec::new();
                    assert(items_view(v@) =~= Seq::<Item>::empty());
                    let ghost pl = self.lines@;
                    self.lines.push(v);
                    assert(self.lines_v() =~= plain_lines_view(pl).push(Seq::<Item>::empty()));
                } else {
                    let ghost before = self.lines@;
                    let ghost bv = self.lines_v();
                    assert(bv.last() == items_view(self.lines@[k as int]@));
                    push_special(&mut self.lines[k], ch);
                    proof {
                        assert(self.lines@ =~= before.update(k as int, self.lines@[k as int]));
                        assert(self.lines_v() =~= push_item(s1.lines, Item::Special(ch)));
                    }
                    lw = lw + 1;
                    pw = lw;
                }
                prev = i + 1;
            } else {
                let w0 = widths[i];
                if w0 > 0 {
                    lw = lw + w0 as usize;
                }
            }
            i += 1;
        }
        let ghost st = plain_run(st0, ts, ws, n as int);
        if prev < n {
            let k = self.lines.len() - 1;
            let ghost before = self.lines@;
            let ghost bv = self.lines_v();
            assert(bv.last() == items_view(self.lines@[k as int]@));
            join_run_exec(&mut self.lines[k], t.as_slice(), prev, n, lw - pw);
            proof {
                assert(self.lines@ =~= before.update(k as int, self.lines@[k as int]));
            }
        }
        assert(self.lines_v() =~= plain_flush(st, ts, n as int).lines);
        if lw > self.width {
            self.width = lw;
        }
    }

    /// Plain text made of `text`; see [`PlainText::append`].
    pub fn parse(text: &str, widths: &[i32]) -> (r: PlainText)
        requires
            widths@.len() == text@.len(),
            valid_widths(widths@),
            plain_room(Seq::empty(), text@.len()),
        ensures
            (r.lines_v(), r.width as nat) == plain_append_result(Seq::empty(), 0, text@, widths@),
            all_specials_ok(r.lines_v()),
    {
        let mut r = PlainText::new();
        r.append(text, widths);
        proof {
            parse_gives_writable_text(text@, widths@);
        }
        r
    }
}


/// The characters of the lines as written, without the line feed that
/// ends the last line.
pub open spec fn written_so_far(lines: Seq<Seq<Item>>) -> Seq<char> {
    text_chars(lines.drop_last()) + line_chars(lines.last())
}

proof fn lemma_line_chars_join(line: Seq<Item>, run: Seq<char>, w: nat)
    ensures
        line_chars(join_run(line, run, w)) == line_chars(line) + run,
{
    if line.len() > 0 && line.last() is Text {
        let j = join_run(line, run, w);
        assert(j.drop_last() =~= line.drop_last());
    } else {
        assert(line.push(Item::Text { text: run, width: w }).drop_last() =~= line);
    }
}

proof fn lemma_written_update(lines: Seq<Seq<Item>>, line: Seq<Item>)
    requires
        lines.len() > 0,
    ensures
        written_so_far(lines.update(lines.len() - 1, line)) == text_chars(lines.drop_last()) + line_chars(line),
{
    assert(lines.update(lines.len() - 1, line).drop_last() =~= lines.drop_last());
}

proof fn lemma_written_flush(st: PlainState, t: Seq<char>, i: int)
    requires
        st.lines.len() > 0,
        0 <= st.prev <= i <= t.len(),
    ensures
        written_so_far(plain_flush(st, t, i).lines) == written_so_far(st.lines) + t.subrange(st.prev, i),
        plain_flush(st, t, i).lines.len() == st.lines.len(),
{
    if st.prev < i {
        lemma_line_chars_join(st.lines.last(), t.subrange(st.prev, i), (st.lw - st.pw) as nat);
        lemma_written_update(st.lines, join_run(st.lines.last(), t.subrange(st.prev, i), (st.lw - st.pw) as nat));
    } else {
        assert(t.subrange(st.prev, i) =~= Seq::<char>::empty());
        assert(written_so_far(st.lines) + t.subrange(st.prev, i) =~= written_so_far(st.lines));
    }
}

/// Text without control characters other than line feeds: what has been
/// read so far, written back, followed by the run not yet added, is the
/// text read so far.
proof fn lemma_plain_run_written(t: Seq<char>, ws: Seq<i32>, n: int)
    requires
        0 <= n <= t.len(),
        forall|k: int| 0 <= k < t.len() ==> t[k] == '\n' || !crate::text::spec_is_ascii_control(#[trigger] t[k]),
    ensures
        ({
            let st0 = PlainState { lines: seq![Seq::<Item>::empty()], width: 0, lw: 0, pw: 0, prev: 0 };
            let st = plain_run(st0, t, ws, n);
            &&& st.lines.len() > 0
            &&& 0 <= st.prev <= n
            &&& written_so_far(st.lines) + t.subrange(st.prev, n) == t.take(n)
        }),
    decreases n,
{
    let st0 = PlainState { lines: seq![Seq::<Item>::empty()], width: 0, lw: 0, pw: 0, prev: 0 };
    if n == 0 {
        assert(seq![Seq::<Item>::empty()].drop_last() =~= Seq::<Seq<Item>>::empty());
        assert(written_so_far(st0.lines) =~= Seq::<char>::empty());
        assert(t.subrange(0, 0) =~= t.take(0));
    } else {
        lemma_plain_run_written(t, ws, n - 1);
        let st = plain_run(st0, t, ws, n - 1);
        let i = n - 1;
        if t[i] == '\n' {
            lemma_written_flush(st, t, i);
            let s1 = plain_flush(st, t, i);
            let l1 = push_item(s1.lines, Item::Newline);
            lemma_written_update(s1.lines, s1.lines.last().push(Item::Newline));
            assert(s1.lines.last().push(Item::Newline).drop_last() =~= s1.lines.last());
            assert(written_so_far(l1) == written_so_far(s1.lines));
            let l2 = l1.push(Seq::<Item>::empty());
            assert(l2.drop_last() =~= l1);
            assert(l1 =~= l1.drop_last().push(l1.last()));
            assert(written_so_far(l2) == text_chars(l1) + line_chars(Seq::<Item>::empty()));
            assert(text_chars(l1) == written_so_far(l1) + seq!['\n']);
            assert(t.subrange(n, n) =~= Seq::<char>::empty());
            assert(t.take(i) + t.subrange(i, i) + seq!['\n'] =~= t.take(n)) by {
                assert(t.subrange(i, i) =~= Seq::<char>::empty());
            }
            assert(written_so_far(s1.lines) =~= t.take(i)) by {
                assert(written_so_far(st.lines) + t.subrange(st.prev, i) == t.take(i));
            }
            assert(written_so_far(l2) + t.subrange(n, n) =~= t.take(n));
        } else {
            assert(t.subrange(st.prev, n) =~= t.subrange(st.prev, i).push(t[i]));
            assert(t.take(n) =~= t.take(i).push(t[i]));
        }
    }
}

/// Plain text read from characters without control characters other than
/// line feeds, written back, is those characters followed by a line feed.
pub proof fn parse_then_write(t: Seq<char>, ws: Seq<i32>)
    requires
        forall|k: int| 0 <= k < t.len() ==> t[k] == '\n' || !crate::text::spec_is_ascii_control(#[trigger] t[k]),
    ensures
        text_chars(plain_append_result(Seq::empty(), 0, t, ws).0) == t + seq!['\n'],
{
    let st0 = PlainState { lines: seq![Seq::<Item>::empty()], width: 0, lw: 0, pw: 0, prev: 0 };
    assert(plain_start_lines(Seq::<Seq<Item>>::empty()) =~= seq![Seq::<Item>::empty()]);
    assert(items_width(Seq::<Item>::empty()) == 0);
    lemma_plain_run_written(t, ws, t.len() as int);
    let st = plain_run(st0, t, ws, t.len() as int);
    lemma_written_flush(st, t, t.len() as int);
    let l = plain_flush(st, t, t.len() as int).lines;
    assert(t.take(t.len() as int) =~= t);
    assert(l =~= l.drop_last().push(l.last()));
    assert(text_chars(l) == written_so_far(l) + seq!['\n']);
}


proof fn lemma_specials_update(lines: Seq<Seq<Item>>, line: Seq<Item>)
    requires
        lines.len() > 0,
        all_specials_ok(lines),
        specials_ok(line),
    ensures
        all_specials_ok(lines.update(lines.len() - 1, line)),
{
    assert forall|i: int| 0 <= i < lines.update(lines.len() - 1, line).len()
        implies specials_ok(#[trigger] lines.update(lines.len() - 1, line)[i]) by {
        if i != lines.len() - 1 {
            assert(specials_ok(lines[i]));
        }
    }
}

proof fn lemma_specials_join(line: Seq<Item>, run: Seq<char>, w: nat)
    requires
        specials_ok(line),
    ensures
        specials_ok(join_run(line, run, w)),
{
    if line.len() > 0 && line.last() is Text {
        let j = join_run(line, run, w);
        assert forall|i: int| 0 <= i < j.len() implies
            (#[trigger] j[i] matches Item::Special(c) ==> crate::text::spec_is_ascii_control(c)) by {
            if i < line.len() - 1 {
                assert(j[i] == line[i]);
            }
        }
    } else {
        let it = Item::Text { text: run, width: w };
        assert forall|i: int| 0 <= i < line.push(it).len() implies
            (#[trigger] line.push(it)[i] matches Item::Special(c) ==> crate::text::spec_is_ascii_control(c)) by {
            if i < line.len() {
                assert(line.push(it)[i] == line[i]);
            }
        }
    }
}

proof fn lemma_specials_flush(st: PlainState, t: Seq<char>, i: int)
    requires
        st.lines.len() > 0,
        all_specials_ok(st.lines),
    ensures
        all_specials_ok(plain_flush(st, t, i).lines),
        plain_flush(st, t, i).lines.len() == st.lines.len(),
{
    if st.prev < i {
        assert(specials_ok(st.lines.last()));
        lemma_specials_join(st.lines.last(), t.subrange(st.prev, i), (st.lw - st.pw) as nat);
        lemma_specials_update(st.lines, join_run(st.lines.last(), t.subrange(st.prev, i), (st.lw - st.pw) as nat));
    }
}

proof fn lemma_specials_push_item(lines: Seq<Seq<Item>>, it: Item)
    requires
        lines.len() > 0,
        all_specials_ok(lines),
        it matches Item::Special(c) ==> crate::text::spec_is_ascii_control(c),
    ensures
        all_specials_ok(push_item(lines, it)),
{
    let line = lines.last();
    assert(specials_ok(line));
    assert forall|i: int| 0 <= i < line.push(it).len() implies
        (#[trigger] line.push(it)[i] matches Item::Special(c) ==> crate::text::spec_is_ascii_control(c)) by {
        if i < line.len() {
            assert(line.push(it)[i] == line[i]);
        }
    }
    lemma_specials_update(lines, line.push(it));
}

proof fn lemma_push_item_len(lines: Seq<Seq<Item>>, it: Item)
    requires
        lines.len() > 0,
    ensures
        push_item(lines, it).len() == lines.len(),
{
}

proof fn lemma_specials_step(st: PlainState, t: Seq<char>, ws: Seq<i32>, i: int)
    requires
        st.lines.len() > 0,
        all_specials_ok(st.lines),
        0 <= i < t.len(),
    ensures
        plain_step(st, t, ws, i).lines.len() > 0,
        all_specials_ok(plain_step(st, t, ws, i).lines),
{
    let c = t[i];
    if c == '\n' {
        lemma_specials_flush(st, t, i);
        let s1 = plain_flush(st, t, i);
        lemma_specials_push_item(s1.lines, Item::Newline);
        let l1 = push_item(s1.lines, Item::Newline);
        assert(l1.push(Seq::<Item>::empty()).len() > 0);
        assert forall|j: int| 0 <= j < l1.push(Seq::<Item>::empty()).len()
            implies specials_ok(#[trigger] l1.push(Seq::<Item>::empty())[j]) by {
            if j < l1.len() {
                assert(specials_ok(l1[j]));
            }
        }
    } else if crate::text::spec_is_ascii_control(c) {
        lemma_specials_flush(st, t, i);
        let s1 = plain_flush(st, t, i);
        let it = Item::Special(c);
        lemma_push_item_len(s1.lines, it);
        lemma_specials_push_item(s1.lines, it);
    }
}

/// Reading text makes control items only of ASCII control characters.
proof fn lemma_plain_run_specials(st0: PlainState, t: Seq<char>, ws: Seq<i32>, n: int)
    requires
        st0.lines.len() > 0,
        all_specials_ok(st0.lines),
        0 <= n <= t.len(),
    ensures
        plain_run(st0, t, ws, n).lines.len() > 0,
        all_specials_ok(plain_run(st0, t, ws, n).lines),
    decreases n,
{
    if n > 0 {
        lemma_plain_run_specials(st0, t, ws, n - 1);
        lemma_specials_step(plain_run(st0, t, ws, n - 1), t, ws, n - 1);
    }
}

/// Text read into plain text holds control items only of ASCII control
/// characters, so it can always be written back.
pub proof fn parse_gives_writable_text(t: Seq<char>, ws: Seq<i32>)
    ensures
        all_specials_ok(plain_append_result(Seq::empty(), 0, t, ws).0),
{
    let st0 = PlainState { lines: seq![Seq::<Item>::empty()], width: 0, lw: 0, pw: 0, prev: 0 };
    assert(plain_start_lines(Seq::<Seq<Item>>::empty()) =~= seq![Seq::<Item>::empty()]);
    assert(items_width(Seq::<Item>::empty()) == 0);
    assert forall|i: int| 0 <= i < st0.lines.len() implies specials_ok(#[trigger] st0.lines[i]) by {}
    lemma_plain_run_specials(st0, t, ws, t.len() as int);
    let st = plain_run(st0, t, ws, t.len() as int);
    lemma_specials_flush(st, t, t.len() as int);
}

/// [`PlainText::write_len`] is the number of bytes that
/// [`PlainText::write`] appends: the UTF-8 length of what is written,
/// whatever the text was appended to.
pub proof fn write_len_counts_written(before: Seq<char>, lines: Seq<Seq<Item>>)
    ensures
        byte_len(before + text_chars(lines)) == byte_len(before) + byte_len(text_chars(lines)),
{
    lemma_byte_len_concat(before, text_chars(lines));
}


/// Every line but the last ends with a line end mark, and the last does
/// not.
pub open spec fn lines_end_marked(lines: Seq<Seq<Item>>) -> bool {
    &&& lines.len() > 0
    &&& forall|i: int| 0 <= i < lines.len() - 1 ==> ends_line(#[trigger] lines[i])
    &&& !ends_line(lines.last())
}

proof fn lemma_push_item_facts(lines: Seq<Seq<Item>>, it: Item)
    requires
        lines.len() > 0,
    ensures
        push_item(lines, it).len() == lines.len(),
        push_item(lines, it).last() == lines.last().push(it),
        forall|j: int| 0 <= j < lines.len() - 1 ==> #[trigger] push_item(lines, it)[j] == lines[j],
{
}

proof fn lemma_flush_facts(st: PlainState, t: Seq<char>, i: int)
    requires
        st.lines.len() > 0,
    ensures
        plain_flush(st, t, i).lines.len() == st.lines.len(),
        forall|j: int| 0 <= j < st.lines.len() - 1 ==> #[trigger] plain_flush(st, t, i).lines[j] == st.lines[j],
{
}

#[verifier::spinoff_prover]
proof fn lemma_marked_step(st: PlainState, t: Seq<char>, ws: Seq<i32>, i: int)
    requires
        lines_end_marked(st.lines),
        0 <= st.prev <= i < t.len(),
    ensures
        lines_end_marked(plain_step(st, t, ws, i).lines),
{
    let c = t[i];
    let lines = st.lines;
    if c == '\n' || crate::text::spec_is_ascii_control(c) {
        lemma_flush_facts(st, t, i);
        let s1 = plain_flush(st, t, i);
        let l0 = s1.lines;
        let it = if c == '\n' { Item::Newline } else { Item::Special(c) };
        lemma_push_item_facts(l0, it);
        let l1 = push_item(l0, it);
        if c == '\n' {
            let l2 = l1.push(Seq::<Item>::empty());
            assert forall|j: int| 0 <= j < l2.len() - 1 implies ends_line(#[trigger] l2[j]) by {
                assert(l2[j] == l1[j]);
                if j < l1.len() - 1 {
                    assert(l1[j] == l0[j]);
                    assert(l0[j] == lines[j]);
                }
            }
            assert(!ends_line(l2.last()));
            assert(plain_step(st, t, ws, i).lines == l2);
        } else {
            assert forall|j: int| 0 <= j < l1.len() - 1 implies ends_line(#[trigger] l1[j]) by {
                assert(l1[j] == l0[j]);
                assert(l0[j] == lines[j]);
            }
            lemma_push_ends_line(l0.last(), it);
            assert(!ends_line(l1.last()));
            assert(plain_step(st, t, ws, i).lines == l1);
        }
    }
}

proof fn lemma_marked_run(t: Seq<char>, ws: Seq<i32>, n: int)
    requires
        0 <= n <= t.len(),
    ensures
        ({
            let st0 = PlainState { lines: seq![Seq::<Item>::empty()], width: 0, lw: 0, pw: 0, prev: 0 };
            let st = plain_run(st0, t, ws, n);
            lines_end_marked(st.lines) && 0 <= st.prev <= n
        }),
    decreases n,
{
    let st0 = PlainState { lines: seq![Seq::<Item>::empty()], width: 0, lw: 0, pw: 0, prev: 0 };
    if n > 0 {
        lemma_marked_run(t, ws, n - 1);
        lemma_marked_step(plain_run(st0, t, ws, n - 1), t, ws, n - 1);
    }
}

/// Unwrapping lines that each end with a line end mark (but the last)
/// changes nothing.
pub proof fn unwrap_of_marked_lines(lines: Seq<Seq<Item>>)
    requires
        lines_end_marked(lines),
    ensures
        unwrap_state(lines).0 == lines,
    decreases lines.len(),
{
    lemma_unwrap_marked_prefix(lines, lines.len() as int - 1);
    let p = lines.drop_last();
    assert(lines.take(lines.len() - 1) =~= p);
    assert(p.push(lines.last()) =~= lines);
}

proof fn lemma_unwrap_marked_prefix(lines: Seq<Seq<Item>>, k: int)
    requires
        lines_end_marked(lines),
        0 <= k < lines.len(),
    ensures
        unwrap_state(lines.take(k)) == (lines.take(k), false),
    decreases k,
{
    if k > 0 {
        lemma_unwrap_marked_prefix(lines, k - 1);
        assert(lines.take(k).drop_last() =~= lines.take(k - 1));
        assert(ends_line(lines[k - 1]));
        assert(lines.take(k - 1).push(lines[k - 1]) =~= lines.take(k));
    } else {
        assert(lines.take(0) =~= Seq::<Seq<Item>>::empty());
    }
}

/// Text read into plain text unwraps to itself: no line is joined to the
/// next, and the width of the widest line is the width read.
pub proof fn parsed_text_unwraps_to_itself(t: Seq<char>, ws: Seq<i32>)
    requires
        t.len() <= ws.len(),
    ensures
        unwrap_state(plain_append_result(Seq::empty(), 0, t, ws).0).0 == plain_append_result(Seq::empty(), 0, t, ws).0,
        max_items_width(unwrap_state(plain_append_result(Seq::empty(), 0, t, ws).0).0)
            == plain_append_result(Seq::empty(), 0, t, ws).1,
{
    parsed_width_is_widest_line(t, ws);
    let st0 = PlainState { lines: seq![Seq::<Item>::empty()], width: 0, lw: 0, pw: 0, prev: 0 };
    assert(plain_start_lines(Seq::<Seq<Item>>::empty()) =~= seq![Seq::<Item>::empty()]);
    assert(items_width(Seq::<Item>::empty()) == 0);
    lemma_marked_run(t, ws, t.len() as int);
    let st = plain_run(st0, t, ws, t.len() as int);
    let l0 = plain_flush(st, t, t.len() as int).lines;
    if st.prev < t.len() {
        let lines = st.lines;
        let l = join_run(lines.last(), t.subrange(st.prev, t.len() as int), (st.lw - st.pw) as nat);
        assert(l0 == lines.update(lines.len() - 1, l));
        assert(l.len() > 0 && l.last() is Text);
        assert forall|j: int| 0 <= j < l0.len() - 1 implies ends_line(#[trigger] l0[j]) by {
            assert(l0[j] == lines[j]);
        }
    }
    unwrap_of_marked_lines(l0);
}


proof fn lemma_push_ends_line(l: Seq<Item>, it: Item)
    ensures
        ends_line(l.push(it)) == (it == Item::Newline),
{
}

/// While text is read: the current line is as wide as the columns up to
/// the run not yet added, the run adds its visible width, and the width
/// counted is that of the widest finished line.
pub open spec fn widths_tracked(st: PlainState, ws: Seq<i32>, n: int) -> bool {
    &&& st.lines.len() > 0
    &&& items_width(st.lines.last()) == st.pw
    &&& st.lw == st.pw + crate::char_width::visible_width(ws.subrange(st.prev, n))
    &&& st.width == max_items_width(st.lines.drop_last())
}

proof fn lemma_items_width_update_last(line: Seq<Item>, run: Seq<char>, w: nat)
    ensures
        items_width(join_run(line, run, w)) == items_width(line) + w,
{
    if line.len() > 0 && line.last() is Text {
        let j = join_run(line, run, w);
        assert(j.drop_last() =~= line.drop_last());
    } else {
        lemma_items_width_push(line, Item::Text { text: run, width: w });
    }
}

#[verifier::spinoff_prover]
proof fn lemma_widths_step(st: PlainState, t: Seq<char>, ws: Seq<i32>, i: int)
    requires
        widths_tracked(st, ws, i),
        0 <= st.prev <= i < t.len(),
        t.len() <= ws.len(),
    ensures
        widths_tracked(plain_step(st, t, ws, i), ws, i + 1),
        0 <= plain_step(st, t, ws, i).prev <= i + 1,
{
    let c = t[i];
    assert(ws.subrange(st.prev, i + 1) =~= ws.subrange(st.prev, i).push(ws[i]));
    crate::char_width::lemma_visible_width_push(ws.subrange(st.prev, i), ws[i]);
    if c == '\n' || crate::text::spec_is_ascii_control(c) {
        lemma_flush_facts(st, t, i);
        let s1 = plain_flush(st, t, i);
        let l0 = s1.lines;
        if st.prev < i {
            lemma_items_width_update_last(st.lines.last(), t.subrange(st.prev, i), (st.lw - st.pw) as nat);
            assert(l0.drop_last() =~= st.lines.drop_last());
            assert(l0.last() == join_run(st.lines.last(), t.subrange(st.prev, i), (st.lw - st.pw) as nat));
        } else {
            assert(ws.subrange(st.prev, i).len() == 0);
        }
        assert(items_width(l0.last()) == st.lw);
        assert(max_items_width(l0.drop_last()) == st.width);
        let it = if c == '\n' { Item::Newline } else { Item::Special(c) };
        lemma_push_item_facts(l0, it);
        let l1 = push_item(l0, it);
        lemma_items_width_push(l0.last(), it);
        assert(l1.drop_last() =~= l0.drop_last());
        assert(ws.subrange(i + 1, i + 1).len() == 0);
        if c == '\n' {
            let l2 = l1.push(Seq::<Item>::empty());
            assert(l2.drop_last() =~= l1);
            assert(l1 =~= l1.drop_last().push(l1.last()));
            assert(plain_step(st, t, ws, i).lines == l2);
        } else {
            assert(plain_step(st, t, ws, i).lines == l1);
        }
    }
}

proof fn lemma_widths_run(t: Seq<char>, ws: Seq<i32>, n: int)
    requires
        0 <= n <= t.len(),
        t.len() <= ws.len(),
    ensures
        ({
            let st0 = PlainState { lines: seq![Seq::<Item>::empty()], width: 0, lw: 0, pw: 0, prev: 0 };
            let st = plain_run(st0, t, ws, n);
            widths_tracked(st, ws, n) && 0 <= st.prev <= n
        }),
    decreases n,
{
    let st0 = PlainState { lines: seq![Seq::<Item>::empty()], width: 0, lw: 0, pw: 0, prev: 0 };
    if n > 0 {
        lemma_widths_run(t, ws, n - 1);
        lemma_widths_step(plain_run(st0, t, ws, n - 1), t, ws, n - 1);
    } else {
        assert(st0.lines.drop_last() =~= Seq::<Seq<Item>>::empty());
        assert(ws.subrange(0, 0).len() == 0);
    }
}

/// The width of text read into plain text is that of its widest line, so
/// unwrapping it gives it back whole, width included.
pub proof fn parsed_width_is_widest_line(t: Seq<char>, ws: Seq<i32>)
    requires
        t.len() <= ws.len(),
    ensures
        plain_append_result(Seq::empty(), 0, t, ws).1 == max_items_width(plain_append_result(Seq::empty(), 0, t, ws).0),
{
    let st0 = PlainState { lines: seq![Seq::<Item>::empty()], width: 0, lw: 0, pw: 0, prev: 0 };
    assert(plain_start_lines(Seq::<Seq<Item>>::empty()) =~= seq![Seq::<Item>::empty()]);
    assert(items_width(Seq::<Item>::empty()) == 0);
    lemma_widths_run(t, ws, t.len() as int);
    let st = plain_run(st0, t, ws, t.len() as int);
    lemma_flush_facts(st, t, t.len() as int);
    let l0 = plain_flush(st, t, t.len() as int).lines;
    if st.prev < t.len() {
        lemma_items_width_update_last(st.lines.last(), t.subrange(st.prev, t.len() as int), (st.lw - st.pw) as nat);
        assert(l0.drop_last() =~= st.lines.drop_last());
    } else {
        assert(ws.subrange(st.prev, t.len() as int).len() == 0);
    }
    assert(items_width(l0.last()) == st.lw);
    assert(l0 =~= l0.drop_last().push(l0.last()));
}

} // verus!
