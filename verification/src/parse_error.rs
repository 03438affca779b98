use vstd::prelude::*;
use crate::describe::{decimal, push_decimal};
use crate::text::{to_chars, push_char, len_utf8, byte_offset, utf8_len, lemma_byte_offset_step, lemma_byte_len_bound, byte_len};

verus! {

/// A tag of the rich text markup.
#[derive(Debug, Clone, Copy, PartialEq, Eq, Structural)]
pub enum Tag {
    Bold,
    Faint,
    Italic,
    Underline,
    DoublyUnderline,
    Foreground,
    Background,
}

/// The tag a name stands for: `b`, `f`, `i`, `u`, `du`, `color` or `fg`,
/// `bg`.
pub open spec fn tag_of_name(name: Seq<char>) -> Option<Tag> {
    if name == seq!['b'] {
        Some(Tag::Bold)
    } else if name == seq!['i'] {
        Some(Tag::Italic)
    } else if name == seq!['f'] {
        Some(Tag::Faint)
    } else if name == seq!['u'] {
        Some(Tag::Underline)
    } else if name == seq!['d', 'u'] {
        Some(Tag::DoublyUnderline)
    } else if name == seq!['c', 'o', 'l', 'o', 'r'] || name == seq!['f', 'g'] {
        Some(Tag::Foreground)
    } else if name == seq!['b', 'g'] {
        Some(Tag::Background)
    } else {
        None
    }
}

/// The name under which a tag is written.
pub open spec fn name_of_tag(tag: Tag) -> Seq<char> {
    match tag {
        Tag::Bold => seq!['b'],
        Tag::Faint => seq!['f'],
        Tag::Italic => seq!['i'],
        Tag::Underline => seq!['u'],
        Tag::DoublyUnderline => seq!['d', 'u'],
        Tag::Foreground => seq!['c', 'o', 'l', 'o', 'r'],
        Tag::Background => seq!['b', 'g'],
    }
}

/// Every tag is found again under its name.
pub proof fn tag_name_round_trip(tag: Tag)
    ensures
        tag_of_name(name_of_tag(tag)) == Some(tag),
{
    assert(seq!['d', 'u'] != seq!['b']) by { assert(seq!['d', 'u'].len() != seq!['b'].len()); }
    assert(seq!['c', 'o', 'l', 'o', 'r'] != seq!['b']) by { assert(seq!['c', 'o', 'l', 'o', 'r'].len() != 1); }
    assert(seq!['b', 'g'] != seq!['b']) by { assert(seq!['b', 'g'].len() != 1); }
    assert(seq!['f'] != seq!['b']) by { assert(seq!['f'][0] != seq!['b'][0]); }
    assert(seq!['f'] != seq!['i']) by { assert(seq!['f'][0] != seq!['i'][0]); }
    assert(seq!['u'] != seq!['b']) by { assert(seq!['u'][0] != seq!['b'][0]); }
    assert(seq!['u'] != seq!['i']) by { assert(seq!['u'][0] != seq!['i'][0]); }
    assert(seq!['u'] != seq!['f']) by { assert(seq!['u'][0] != seq!['f'][0]); }
    assert(seq!['i'] != seq!['b']) by { assert(seq!['i'][0] != seq!['b'][0]); }
    assert(seq!['d', 'u'] != seq!['i']) by { assert(seq!['d', 'u'].len() != 1); }
    assert(seq!['d', 'u'] != seq!['f']) by { assert(seq!['d', 'u'].len() != 1); }
    assert(seq!['d', 'u'] != seq!['u']) by { assert(seq!['d', 'u'].len() != 1); }
    assert(seq!['c', 'o', 'l', 'o', 'r'] != seq!['i']) by { assert(seq!['c', 'o', 'l', 'o', 'r'].len() != 1); }
    assert(seq!['c', 'o', 'l', 'o', 'r'] != seq!['f']) by { assert(seq!['c', 'o', 'l', 'o', 'r'].len() != 1); }
    assert(seq!['c', 'o', 'l', 'o', 'r'] != seq!['u']) by { assert(seq!['c', 'o', 'l', 'o', 'r'].len() != 1); }
    assert(seq!['c', 'o', 'l', 'o', 'r'] != seq!['d', 'u']) by { assert(seq!['c', 'o', 'l', 'o', 'r'].len() != 2); }
    assert(seq!['b', 'g'] != seq!['i']) by { assert(seq!['b', 'g'].len() != 1); }
    assert(seq!['b', 'g'] != seq!['f']) by { assert(seq!['b', 'g'].len() != 1); }
    assert(seq!['b', 'g'] != seq!['u']) by { assert(seq!['b', 'g'].len() != 1); }
    assert(seq!['b', 'g'] != seq!['d', 'u']) by { assert(seq!['b', 'g'][0] != seq!['d', 'u'][0]); }
    assert(seq!['b', 'g'] != seq!['c', 'o', 'l', 'o', 'r']) by { assert(seq!['b', 'g'].len() != 5); }
    assert(seq!['b', 'g'] != seq!['f', 'g']) by { assert(seq!['b', 'g'][0] != seq!['f', 'g'][0]); }
}

/// `t[a..b]` spells `name`.
fn chars_are(t: &[char], a: usize, b: usize, name: &[char]) -> (r: bool)
    requires
        a <= b <= t@.len(),
    ensures
        r == (t@.subrange(a as int, b as int) == name@),
{
    if b - a != name.len() {
        return false;
    }
    let mut i: usize = 0;
    while i < name.len()
        invariant
            a + name@.len() == b,
            b <= t@.len(),
            i <= name@.len(),
            forall|j: int| 0 <= j < i ==> t@[a + j] == name@[j],
        decreases name.len() - i,
    {
        if t[a + i] != name[i] {
            assert(t@.subrange(a as int, b as int)[i as int] != name@[i as int]);
            return false;
        }
        i += 1;
    }
    assert(t@.subrange(a as int, b as int) =~= name@);
    true
}

/// The tag named by `t[a..b]`.
pub fn tag_from_chars(t: &[char], a: usize, b: usize) -> (r: Option<Tag>)
    requires
        a <= b <= t@.len(),
    ensures
        r == tag_of_name(t@.subrange(a as int, b as int)),
{
    let ghost name = t@.subrange(a as int, b as int);
    if chars_are(t, a, b, &['b']) {
        assert(['b']@ =~= seq!['b']);
        Some(Tag::Bold)
    } else if chars_are(t, a, b, &['i']) {
        assert(['b']@ =~= seq!['b']);
        assert(['i']@ =~= seq!['i']);
        Some(Tag::Italic)
    } else if chars_are(t, a, b, &['f']) {
        assert(['b']@ =~= seq!['b']);
        assert(['i']@ =~= seq!['i']);
        assert(['f']@ =~= seq!['f']);
        Some(Tag::Faint)
    } else if chars_are(t, a, b, &['u']) {
        assert(['b']@ =~= seq!['b']);
        assert(['i']@ =~= seq!['i']);
        assert(['f']@ =~= seq!['f']);
        assert(['u']@ =~= seq!['u']);
        Some(Tag::Underline)
    } else {
        assert(['b']@ =~= seq!['b']);
        assert(['i']@ =~= seq!['i']);
        assert(['f']@ =~= seq!['f']);
        assert(['u']@ =~= seq!['u']);
        assert(['d', 'u']@ =~= seq!['d', 'u']);
        assert(['c', 'o', 'l', 'o', 'r']@ =~= seq!['c', 'o', 'l', 'o', 'r']);
        assert(['f', 'g']@ =~= seq!['f', 'g']);
        assert(['b', 'g']@ =~= seq!['b', 'g']);
        if chars_are(t, a, b, &['d', 'u']) {
            Some(Tag::DoublyUnderline)
        } else if chars_are(t, a, b, &['c', 'o', 'l', 'o', 'r']) || chars_are(t, a, b, &['f', 'g']) {
            Some(Tag::Foreground)
        } else if chars_are(t, a, b, &['b', 'g']) {
            Some(Tag::Background)
        } else {
            None
        }
    }
}

impl Tag {
    /// The tag a name stands for.
    pub fn from_tag_name(tag_name: &str) -> (r: Option<Self>)
        ensures
            r == tag_of_name(tag_name@),
    {
        let t = to_chars(tag_name);
        assert(t@.subrange(0, t@.len() as int) =~= t@);
        tag_from_chars(t.as_slice(), 0, t.len())
    }

    /// The name under which this tag is written.
    pub fn tag_name(&self) -> (r: String)
        ensures
            r@ == name_of_tag(*self),
    {
        let mut s = String::new();
        match self {
            Tag::Bold => crate::text::push_char(&mut s, 'b'),
            Tag::Faint => crate::text::push_char(&mut s, 'f'),
            Tag::Italic => crate::text::push_char(&mut s, 'i'),
            Tag::Underline => crate::text::push_char(&mut s, 'u'),
            Tag::DoublyUnderline => {
                crate::text::push_char(&mut s, 'd');
                crate::text::push_char(&mut s, 'u');
            },
            Tag::Foreground => {
                crate::text::push_char(&mut s, 'c');
                crate::text::push_char(&mut s, 'o');
                crate::text::push_char(&mut s, 'l');
                crate::text::push_char(&mut s, 'o');
                crate::text::push_char(&mut s, 'r');
            },
            Tag::Background => {
                crate::text::push_char(&mut s, 'b');
                crate::text::push_char(&mut s, 'g');
            },
        }
        assert(s@ =~= name_of_tag(*self));
        s
    }
}

/// A name that is not a tag.
#[derive(Debug, Clone, Copy, PartialEq, Eq, Structural)]
pub struct IllegalTagName;

/// What went wrong while parsing rich text.
#[derive(Debug, Clone, Copy, PartialEq, Eq, Structural)]
pub enum ParseErrorKind {
    UnexpectedCloseTag { actual: Tag, expected: Option<Tag> },
    ExpectedCloseTag(Tag),
    UnexpectedEndOfInput,
    UnknownTag,
    SyntaxError,
}

impl ParseErrorKind {
    pub fn is_unexpected_close_tag(&self) -> (r: bool)
        ensures
            r == (*self is UnexpectedCloseTag),
    {
        match self {
            ParseErrorKind::UnexpectedCloseTag { .. } => true,
            _ => false,
        }
    }
}

/// Where a byte offset lies in a text: its line (from 1), its column in
/// characters (from 1), and the byte range of its line.
#[derive(Debug, Clone, Copy, PartialEq, Eq, Structural)]
pub struct Location {
    pub index: usize,
    pub lineno: usize,
    pub column: usize,
    pub line_start: usize,
    pub line_end: usize,
    pub column_index: usize,
}

/// Number of line feeds among the first `k` characters.
pub open spec fn count_newlines(t: Seq<char>, k: int) -> nat
    decreases k,
{
    if k <= 0 {
        0
    } else {
        count_newlines(t, k - 1) + if t[k - 1] == '\n' { 1nat } else { 0nat }
    }
}

/// Position of the last line feed before position `k`, or -1.
pub open spec fn last_newline_before(t: Seq<char>, k: int) -> int
    decreases k,
{
    if k <= 0 {
        -1
    } else if t[k - 1] == '\n' {
        k - 1
    } else {
        last_newline_before(t, k - 1)
    }
}

/// Position of the first line feed at or after `k`, or the length.
pub open spec fn next_newline_from(t: Seq<char>, k: int) -> int
    decreases t.len() - k,
{
    if k < 0 || k >= t.len() {
        t.len() as int
    } else if t[k] == '\n' {
        k
    } else {
        next_newline_from(t, k + 1)
    }
}

/// A location can be taken of character position `k`: with a line feed
/// before it, the character there is a single byte long.
pub open spec fn location_ok(t: Seq<char>, k: int) -> bool {
    &&& 0 <= k <= t.len()
    &&& last_newline_before(t, k) >= 0 ==> k < t.len() && utf8_len(t[k]) == 1
}

/// The location of character position `k`.  After a line feed at position
/// `nl`, the line starts at the feed's byte offset and the column counts
/// the characters from the one after the feed up to and including the one
/// at `k`, plus one; on the first line it is `k + 1`.
pub open spec fn location_of(t: Seq<char>, k: int) -> Location {
    let nl = last_newline_before(t, k);
    if nl >= 0 {
        Location {
            index: byte_offset(t, k) as usize,
            lineno: count_newlines(t, k) as usize,
            column: (k - nl + 1) as usize,
            line_start: byte_offset(t, nl) as usize,
            line_end: byte_offset(t, next_newline_from(t, nl + 1)) as usize,
            column_index: (byte_offset(t, k) - byte_offset(t, nl)) as usize,
        }
    } else {
        Location {
            index: byte_offset(t, k) as usize,
            lineno: 1,
            column: (k + 1) as usize,
            line_start: 0,
            line_end: byte_offset(t, next_newline_from(t, 0)) as usize,
            column_index: byte_offset(t, k) as usize,
        }
    }
}

/// Byte offsets of every character position, and of the end.
pub fn byte_offsets(t: &[char]) -> (offs: Vec<usize>)
    requires
        t@.len() <= usize::MAX / 4,
    ensures
        offs@.len() == t@.len() + 1,
        forall|k: int| 0 <= k <= t@.len() ==> offs@[k] == byte_offset(t@, k),
{
    let mut offs: Vec<usize> = Vec::new();
    offs.push(0);
    assert(t@.take(0) =~= Seq::<char>::empty());
    let mut acc: usize = 0;
    let mut i: usize = 0;
    while i < t.len()
        invariant
            t@.len() <= usize::MAX / 4,
            i <= t@.len(),
            offs@.len() == i + 1,
            acc == byte_offset(t@, i as int),
            forall|k: int| 0 <= k <= i ==> offs@[k] == byte_offset(t@, k),
        decreases t.len() - i,
    {
        proof {
            lemma_byte_offset_step(t@, i as int);
            lemma_byte_len_bound(t@.take(i + 1));
        }
        acc = acc + len_utf8(t[i]);
        offs.push(acc);
        i += 1;
    }
    offs
}

pub proof fn lemma_offset_bound(t: Seq<char>, k: int)
    requires
        0 <= k <= t.len(),
        t.len() <= usize::MAX / 4,
    ensures
        byte_offset(t, k) <= 4 * k,
{
    lemma_byte_len_bound(t.take(k));
}

impl Location {
    /// The location of character position `k` of `t`, given the byte
    /// offsets of `t`.
    pub fn from_char_pos(t: &[char], offs: &[usize], k: usize) -> (r: Location)
        requires
            t@.len() <= usize::MAX / 4,
            offs@.len() == t@.len() + 1,
            forall|j: int| 0 <= j <= t@.len() ==> offs@[j] == byte_offset(t@, j),
            location_ok(t@, k as int),
        ensures
            r == location_of(t@, k as int),
    {
        // Find the last line feed before k, and count the line feeds.
        let mut nl: usize = 0;
        let mut has_nl = false;
        let mut count: usize = 0;
        let mut i: usize = 0;
        while i < k
            invariant
                k <= t@.len(),
                i <= k,
                count == count_newlines(t@, i as int),
                count <= i,
                has_nl == (last_newline_before(t@, i as int) >= 0),
                has_nl ==> nl == last_newline_before(t@, i as int),
                has_nl ==> nl < i,
            decreases k - i,
        {
            if t[i] == '\n' {
                nl = i;
                has_nl = true;
                count += 1;
            }
            i += 1;
        }
        let from = if has_nl { nl + 1 } else { 0 };
        let mut e = from;
        while e < t.len() && t[e] != '\n'
            invariant
                from <= e <= t@.len(),
                next_newline_from(t@, from as int) == next_newline_from(t@, e as int),
            decreases t.len() - e,
        {
            e += 1;
        }
        proof {
            lemma_offset_bound(t@, k as int);
        }
        if has_nl {
            proof {
                lemma_offset_bound(t@, nl as int);
                crate::text::lemma_byte_offset_step(t@, nl as int);
                lemma_offset_mono(t@, nl as int, k as int);
            }
            Location {
                index: offs[k],
                lineno: count,
                column: k - nl + 1,
                line_start: offs[nl],
                line_end: offs[e],
                column_index: offs[k] - offs[nl],
            }
        } else {
            Location {
                index: offs[k],
                lineno: 1,
                column: k + 1,
                line_start: 0,
                line_end: offs[e],
                column_index: offs[k],
            }
        }
    }

    /// The location of byte offset `index` of `text`, which is the start
    /// of a character or the end of the text.
    pub fn from_index(text: &str, index: usize) -> (r: Location)
        requires
            text@.len() <= usize::MAX / 4,
            exists|k: int| 0 <= k <= text@.len() && byte_offset(text@, k) == index && location_ok(text@, k),
        ensures
            exists|k: int| 0 <= k <= text@.len() && byte_offset(text@, k) == index && r == location_of(text@, k),
    {
        let t = to_chars(text);
        let offs = byte_offsets(t.as_slice());
        let ghost kk = choose|k: int| 0 <= k <= text@.len() && byte_offset(text@, k) == index && location_ok(text@, k);
        let mut k: usize = 0;
        while k < t.len() && offs[k] != index
            invariant
                k <= t@.len(),
                t@ == text@,
                offs@.len() == t@.len() + 1,
                forall|j: int| 0 <= j <= t@.len() ==> offs@[j] == byte_offset(t@, j),
                forall|j: int| 0 <= j < k ==> byte_offset(t@, j) != index,
                0 <= kk <= t@.len(),
                byte_offset(t@, kk) == index,
            decreases t.len() - k,
        {
            k += 1;
        }
        proof {
            lemma_offset_injective(t@, k as int, kk);
        }
        Location::from_char_pos(t.as_slice(), offs.as_slice(), k)
    }
}

proof fn lemma_offset_mono(t: Seq<char>, a: int, b: int)
    requires
        0 <= a <= b <= t.len(),
    ensures
        byte_offset(t, a) <= byte_offset(t, b),
        a < b ==> byte_offset(t, a) < byte_offset(t, b),
    decreases b - a,
{
    if a < b {
        lemma_offset_mono(t, a, b - 1);
        crate::text::lemma_byte_offset_step(t, b - 1);
    }
}

proof fn lemma_offset_injective(t: Seq<char>, a: int, b: int)
    requires
        0 <= a <= t.len(),
        0 <= b <= t.len(),
        byte_offset(t, a) == byte_offset(t, b),
    ensures
        a == b,
{
    if a < b {
        lemma_offset_mono(t, a, b);
    } else if b < a {
        lemma_offset_mono(t, b, a);
    }
}

/// Number of decimal digits of `n`, none for zero.
pub open spec fn digit_count(n: nat) -> nat
    decreases n,
{
    if n == 0 { 0 } else { 1 + digit_count(n / 10) }
}

/// `n` copies of `c`.
pub open spec fn repeated(c: char, n: nat) -> Seq<char> {
    Seq::new(n, |i: int| c)
}

/// The text that shows an error's line: the line number, a colon, a space
/// and the line; then, under it, as many spaces as the line number has
/// digits, two more spaces, and a caret at the error's column with dashes
/// leading up to it.
pub open spec fn error_line_text(lineno: nat, column: nat, line: Seq<char>) -> Seq<char> {
    decimal(lineno) + seq![':', ' '] + line + seq!['\n'] + repeated(' ', digit_count(lineno) + 2)
        + repeated('-', if column > 0 { (column - 1) as nat } else { 0 }) + seq!['^', '\n']
}

/// The byte range `line_start..line_end` of `t` begins and ends between
/// characters, at positions `a` and `b`.
pub open spec fn line_at(t: Seq<char>, line_start: usize, line_end: usize, a: int, b: int) -> bool {
    &&& 0 <= a <= b <= t.len()
    &&& byte_offset(t, a) == line_start
    &&& byte_offset(t, b) == line_end
}

fn push_repeated(s: &mut String, c: char, n: usize)
    ensures
        final(s)@ == old(s)@ + repeated(c, n as nat),
{
    let mut i: usize = 0;
    while i < n
        invariant
            i <= n,
            s@ == old(s)@ + repeated(c, i as nat),
        decreases n - i,
    {
        push_char(s, c);
        assert(repeated(c, (i + 1) as nat) =~= repeated(c, i as nat).push(c));
        i += 1;
    }
}

/// The first character position of `t` whose byte offset is `off`, given
/// that one exists.
fn position_of_offset(t: &[char], offs: &[usize], off: usize) -> (k: usize)
    requires
        offs@.len() == t@.len() + 1,
        forall|j: int| 0 <= j <= t@.len() ==> offs@[j] == byte_offset(t@, j),
        exists|j: int| 0 <= j <= t@.len() && byte_offset(t@, j) == off,
    ensures
        k <= t@.len(),
        byte_offset(t@, k as int) == off,
{
    let ghost jj = choose|j: int| 0 <= j <= t@.len() && byte_offset(t@, j) == off;
    let mut k: usize = 0;
    while k < t.len() && offs[k] != off
        invariant
            k <= t@.len(),
            offs@.len() == t@.len() + 1,
            forall|j: int| 0 <= j <= t@.len() ==> offs@[j] == byte_offset(t@, j),
            forall|j: int| 0 <= j < k ==> byte_offset(t@, j) != off,
            0 <= jj <= t@.len(),
            byte_offset(t@, jj) == off,
        decreases t.len() - k,
    {
        k += 1;
    }
    k
}

proof fn lemma_digit_count_bound(n: nat)
    ensures
        digit_count(n) <= n,
        n > 0 ==> digit_count(n) >= 1,
    decreases n,
{
    if n > 0 {
        lemma_digit_count_bound(n / 10);
    }
}

/// An error in rich text markup: what went wrong and where.
#[derive(Debug, Clone, Copy, PartialEq, Eq, Structural)]
pub struct ParseError {
    pub kind: ParseErrorKind,
    pub index: usize,
    pub location: Location,
}

impl ParseError {
    /// The error `kind` at byte offset `index` of `text`.
    pub fn new(kind: ParseErrorKind, index: usize, text: &str) -> (r: Self)
        requires
            text@.len() <= usize::MAX / 4,
            exists|k: int| 0 <= k <= text@.len() && byte_offset(text@, k) == index && location_ok(text@, k),
        ensures
            r.kind == kind,
            r.index == index,
            exists|k: int| 0 <= k <= text@.len() && byte_offset(text@, k) == index && r.location == location_of(text@, k),
    {
        ParseError { kind, index, location: Location::from_index(text, index) }
    }

    pub fn index(&self) -> (r: usize)
        ensures
            r == self.index,
    {
        self.index
    }

    pub fn kind(&self) -> (r: ParseErrorKind)
        ensures
            r == self.kind,
    {
        self.kind
    }

    pub fn location(&self) -> (r: &Location)
        ensures
            *r == self.location,
    {
        &self.location
    }

    /// The line of `text` that holds the error, after its number, and
    /// under it a caret at the error's column.
    pub fn print_line(&self, text: &str) -> (r: String)
        requires
            text@.len() <= usize::MAX / 4,
            exists|a: int, b: int| line_at(text@, self.location.line_start, self.location.line_end, a, b),
        ensures
            forall|a: int, b: int| line_at(text@, self.location.line_start, self.location.line_end, a, b)
                ==> r@ == error_line_text(self.location.lineno as nat, self.location.column as nat, text@.subrange(a, b)),
    {
        let t = to_chars(text);
        let offs = byte_offsets(t.as_slice());
        let ghost (aa, bb) = choose|a: int, b: int| line_at(text@, self.location.line_start, self.location.line_end, a, b);
        assert(byte_offset(t@, aa) == self.location.line_start);
        assert(byte_offset(t@, bb) == self.location.line_end);
        let a = position_of_offset(t.as_slice(), offs.as_slice(), self.location.line_start);
        let b = position_of_offset(t.as_slice(), offs.as_slice(), self.location.line_end);
        proof {
            lemma_offset_injective(t@, a as int, aa);
            lemma_offset_injective(t@, b as int, bb);
        }
        let lineno = self.location.lineno;
        let mut s = String::new();
        push_decimal(&mut s, lineno as u64);
        push_char(&mut s, ':');
        push_char(&mut s, ' ');
        let ghost head = s@;
        assert(head =~= decimal(lineno as nat) + seq![':', ' ']);
        let mut i: usize = a;
        while i < b
            invariant
                a <= i <= b,
                b <= t@.len(),
                s@ == head + t@.subrange(a as int, i as int),
            decreases b - i,
        {
            push_char(&mut s, t[i]);
            assert(t@.subrange(a as int, i + 1) =~= t@.subrange(a as int, i as int).push(t@[i as int]));
            i += 1;
        }
        push_char(&mut s, '\n');
        let mut n = lineno;
        let mut w: usize = 0;
        proof {
            lemma_digit_count_bound(lineno as nat);
        }
        while n > 0
            invariant
                digit_count(lineno as nat) == w + digit_count(n as nat),
                digit_count(lineno as nat) <= lineno,
            decreases n,
        {
            proof {
                lemma_digit_count_bound(n as nat);
            }
            n = n / 10;
            w += 1;
        }
        let ghost mid = s@;
        push_repeated(&mut s, ' ', w);
        push_char(&mut s, ' ');
        push_char(&mut s, ' ');
        assert(repeated(' ', w as nat) + seq![' ', ' '] =~= repeated(' ', digit_count(lineno as nat) + 2));
        let column = self.location.column;
        let dashes = if column > 0 { column - 1 } else { 0 };
        push_repeated(&mut s, '-', dashes);
        push_char(&mut s, '^');
        push_char(&mut s, '\n');
        proof {
            let want = error_line_text(lineno as nat, column as nat, t@.subrange(a as int, b as int));
            assert(s@ =~= want);
            assert forall|a2: int, b2: int| line_at(text@, self.location.line_start, self.location.line_end, a2, b2)
                implies s@ == error_line_text(lineno as nat, column as nat, text@.subrange(a2, b2)) by {
                lemma_offset_injective(t@, a as int, a2);
                lemma_offset_injective(t@, b as int, b2);
            }
        }
        s
    }
}

} // verus!
