use vstd::prelude::*;
use crate::event::{Event, Key};
use crate::parse_error::{ParseError, ParseErrorKind, name_of_tag};
use crate::text::{push_char, unicode_upper, to_uppercase_chars, byte_len, utf8_len, len_utf8, lemma_byte_len_push, to_chars};
use crate::fields::ParserError;
use crate::char_width::{valid_widths, visible_width};
use crate::wrap::range_width;
use crate::plain_text::lemma_byte_len_concat;

verus! {

/// The digit for `d`, below ten.
pub open spec fn digit_char(d: nat) -> char {
    if d == 0 { '0' } else if d == 1 { '1' } else if d == 2 { '2' } else if d == 3 { '3' } else if d == 4 { '4' }
    else if d == 5 { '5' } else if d == 6 { '6' } else if d == 7 { '7' } else if d == 8 { '8' } else { '9' }
}

/// The decimal digits of `n`, most significant first.
pub open spec fn decimal(n: nat) -> Seq<char>
    decreases n,
{
    if n < 10 { seq![digit_char(n)] } else { decimal(n / 10).push(digit_char(n % 10)) }
}

fn digit_exec(d: u64) -> (c: char)
    requires
        d < 10,
    ensures
        c == digit_char(d as nat),
{
    match d {
        0 => '0',
        1 => '1',
        2 => '2',
        3 => '3',
        4 => '4',
        5 => '5',
        6 => '6',
        7 => '7',
        8 => '8',
        _ => '9',
    }
}

/// Appends the decimal digits of `n`.
pub fn push_decimal(s: &mut String, n: u64)
    ensures
        final(s)@ == old(s)@ + decimal(n as nat),
    decreases n,
{
    if n >= 10 {
        push_decimal(s, n / 10);
    }
    push_char(s, digit_exec(n % 10));
    assert(s@ =~= old(s)@ + decimal(n as nat));
}

/// Appends the characters of `t`.
pub fn push_str(s: &mut String, t: &str)
    ensures
        final(s)@ == old(s)@ + t@,
{
    let n = t.unicode_len();
    let mut i: usize = 0;
    while i < n
        invariant
            n == t@.len(),
            i <= n,
            s@ == old(s)@ + t@.take(i as int),
        decreases n - i,
    {
        push_char(s, t.get_char(i));
        assert(t@.take(i + 1) =~= t@.take(i as int).push(t@[i as int]));
        i += 1;
    }
    assert(t@.take(n as int) =~= t@);
}

/// `true` or `false`.
pub open spec fn bool_text(b: bool) -> Seq<char> {
    if b { "true"@ } else { "false"@ }
}

fn push_bool(s: &mut String, b: bool)
    ensures
        final(s)@ == old(s)@ + bool_text(b),
{
    if b { push_str(s, "true") } else { push_str(s, "false") }
}

/// How a key is shown: Space and Tab by name, a character in upper case
/// where that is one character, `F` and the number of a function key, and
/// the name of any other key.
pub open spec fn key_text(k: Key) -> Seq<char> {
    match k {
        Key::Char(c) => if c == ' ' {
            "Space"@
        } else if c == '\t' {
            "Tab"@
        } else if unicode_upper(c).len() == 1 {
            unicode_upper(c)
        } else {
            seq![c]
        },
        Key::Function(n) => seq!['F'] + decimal(n as nat),
        Key::Insert => "Insert"@,
        Key::Delete => "Delete"@,
        Key::Home => "Home"@,
        Key::End => "End"@,
        Key::Up => "Up"@,
        Key::Down => "Down"@,
        Key::Left => "Left"@,
        Key::Right => "Right"@,
        Key::Keypad5 => "Keypad5"@,
        Key::Backspace => "Backspace"@,
        Key::PrintScreen => "PrintScreen"@,
        Key::ScrollLock => "ScrollLock"@,
        Key::Pause => "Pause"@,
        Key::Enter => "Enter"@,
        Key::PageUp => "PageUp"@,
        Key::PageDown => "PageDown"@,
        Key::Escape => "Escape"@,
    }
}

/// How an event is shown: a key press as `KeyPress`, its modifiers joined
/// by `+` and the key; any other event with its fields.
pub open spec fn event_text(e: Event) -> Seq<char> {
    match e {
        Event::KeyPress { ctrl, alt, shift, key } =>
            "KeyPress "@
            + (if shift { "Shift"@ } else { Seq::empty() })
            + (if ctrl { if shift { "+Ctrl"@ } else { "Ctrl"@ } } else { Seq::empty() })
            + (if alt { if shift || ctrl { "+Alt"@ } else { "Alt"@ } } else { Seq::empty() })
            + (if shift || ctrl || alt { "+"@ } else { Seq::empty() })
            + key_text(key),
        Event::CursorPosition { row, column } =>
            "CursorPosition { row: "@ + decimal(row as nat) + ", column: "@ + decimal(column as nat) + " }"@,
        Event::WindowSize { rows, columns } =>
            "WindowSize { rows: "@ + decimal(rows as nat) + ", columns: "@ + decimal(columns as nat) + " }"@,
        Event::Mouse { ctrl, alt, shift, release, button, row, column } =>
            "Mouse { ctrl: "@ + bool_text(ctrl) + ", alt: "@ + bool_text(alt) + ", shift: "@ + bool_text(shift)
            + ", release: "@ + bool_text(release) + ", button: "@ + decimal(button as nat)
            + ", row: "@ + decimal(row as nat) + ", column: "@ + decimal(column as nat) + " }"@,
        Event::Unsupported => "Unsupported"@,
    }
}

impl Key {
    /// The key as shown to the user; see [`key_text`].
    pub fn to_string(&self) -> (r: String)
        ensures
            r@ == key_text(*self),
    {
        let mut s = String::new();
        match *self {
            Key::Char(c) => {
                if c == ' ' {
                    push_str(&mut s, "Space");
                } else if c == '\t' {
                    push_str(&mut s, "Tab");
                } else {
                    let upper = to_uppercase_chars(c);
                    if upper.len() == 1 {
                        push_char(&mut s, upper[0]);
                        assert(s@ =~= upper@);
                    } else {
                        push_char(&mut s, c);
                    }
                }
            },
            Key::Function(n) => {
                push_char(&mut s, 'F');
                push_decimal(&mut s, n as u64);
            },
            Key::Insert => push_str(&mut s, "Insert"),
            Key::Delete => push_str(&mut s, "Delete"),
            Key::Home => push_str(&mut s, "Home"),
            Key::End => push_str(&mut s, "End"),
            Key::Up => push_str(&mut s, "Up"),
            Key::Down => push_str(&mut s, "Down"),
            Key::Left => push_str(&mut s, "Left"),
            Key::Right => push_str(&mut s, "Right"),
            Key::Keypad5 => push_str(&mut s, "Keypad5"),
            Key::Backspace => push_str(&mut s, "Backspace"),
            Key::PrintScreen => push_str(&mut s, "PrintScreen"),
            Key::ScrollLock => push_str(&mut s, "ScrollLock"),
            Key::Pause => push_str(&mut s, "Pause"),
            Key::Enter => push_str(&mut s, "Enter"),
            Key::PageUp => push_str(&mut s, "PageUp"),
            Key::PageDown => push_str(&mut s, "PageDown"),
            Key::Escape => push_str(&mut s, "Escape"),
        }
        assert(s@ =~= key_text(*self));
        s
    }
}

impl Event {
    /// The event as shown to the user; see [`event_text`].
    pub fn to_string(&self) -> (r: String)
        ensures
            r@ == event_text(*self),
    {
        let mut s = String::new();
        match *self {
            Event::KeyPress { ctrl, alt, shift, key } => {
                push_str(&mut s, "KeyPress ");
                if shift {
                    push_str(&mut s, "Shift");
                }
                if ctrl {
                    if shift { push_str(&mut s, "+Ctrl") } else { push_str(&mut s, "Ctrl") }
                }
                if alt {
                    if shift || ctrl { push_str(&mut s, "+Alt") } else { push_str(&mut s, "Alt") }
                }
                if shift || ctrl || alt {
                    push_str(&mut s, "+");
                }
                let k = key.to_string();
                push_str(&mut s, k.as_str());
                assert(s@ =~= event_text(*self));
            },
            Event::CursorPosition { row, column } => {
                push_str(&mut s, "CursorPosition { row: ");
                push_decimal(&mut s, row as u64);
                push_str(&mut s, ", column: ");
                push_decimal(&mut s, column as u64);
                push_str(&mut s, " }");
                assert(s@ =~= event_text(*self));
            },
            Event::WindowSize { rows, columns } => {
                push_str(&mut s, "WindowSize { rows: ");
                push_decimal(&mut s, rows as u64);
                push_str(&mut s, ", columns: ");
                push_decimal(&mut s, columns as u64);
                push_str(&mut s, " }");
                assert(s@ =~= event_text(*self));
            },
            Event::Mouse { ctrl, alt, shift, release, button, row, column } => {
                push_str(&mut s, "Mouse { ctrl: ");
                push_bool(&mut s, ctrl);
                push_str(&mut s, ", alt: ");
                push_bool(&mut s, alt);
                push_str(&mut s, ", shift: ");
                push_bool(&mut s, shift);
                push_str(&mut s, ", release: ");
                push_bool(&mut s, release);
                push_str(&mut s, ", button: ");
                push_decimal(&mut s, button as u64);
                push_str(&mut s, ", row: ");
                push_decimal(&mut s, row as u64);
                push_str(&mut s, ", column: ");
                push_decimal(&mut s, column as u64);
                push_str(&mut s, " }");
                assert(s@ =~= event_text(*self));
            },
            Event::Unsupported => {
                push_str(&mut s, "Unsupported");
            },
        }
        s
    }
}

/// The message of a parse error, after `line:column: `.
pub open spec fn parse_error_kind_text(k: ParseErrorKind) -> Seq<char> {
    match k {
        ParseErrorKind::UnexpectedCloseTag { actual, expected } => match expected {
            Some(e) => "Unexpected close tag.\n    expected: [/"@ + name_of_tag(e) + "]\n      actual: [/"@
                + name_of_tag(actual) + "]"@,
            None => "Unexpected close tag: [/"@ + name_of_tag(actual) + "]"@,
        },
        ParseErrorKind::ExpectedCloseTag(tag) => "Unexpected end of input.\n    expected: [/"@ + name_of_tag(tag) + "]"@,
        ParseErrorKind::UnexpectedEndOfInput => "Unexpected end of input"@,
        ParseErrorKind::UnknownTag => "Unknown Tag"@,
        ParseErrorKind::SyntaxError => "Syntax Error"@,
    }
}

/// A parse error as shown to the user: line and column (from one), then
/// the message.
pub open spec fn parse_error_text(e: ParseError) -> Seq<char> {
    decimal(e.location.lineno as nat) + ":"@ + decimal(e.location.column as nat) + ": "@ + parse_error_kind_text(e.kind)
}

impl ParseError {
    /// The error as shown to the user; see [`parse_error_text`].
    pub fn to_string(&self) -> (r: String)
        ensures
            r@ == parse_error_text(*self),
    {
        let mut s = String::new();
        push_decimal(&mut s, self.location.lineno as u64);
        push_str(&mut s, ":");
        push_decimal(&mut s, self.location.column as u64);
        push_str(&mut s, ": ");
        match self.kind {
            ParseErrorKind::UnexpectedCloseTag { actual, expected } => {
                match expected {
                    Some(e) => {
                        push_str(&mut s, "Unexpected close tag.\n    expected: [/");
                        push_str(&mut s, e.tag_name().as_str());
                        push_str(&mut s, "]\n      actual: [/");
                        push_str(&mut s, actual.tag_name().as_str());
                        push_str(&mut s, "]");
                    },
                    None => {
                        push_str(&mut s, "Unexpected close tag: [/");
                        push_str(&mut s, actual.tag_name().as_str());
                        push_str(&mut s, "]");
                    },
                }
            },
            ParseErrorKind::ExpectedCloseTag(tag) => {
                push_str(&mut s, "Unexpected end of input.\n    expected: [/");
                push_str(&mut s, tag.tag_name().as_str());
                push_str(&mut s, "]");
            },
            ParseErrorKind::UnexpectedEndOfInput => push_str(&mut s, "Unexpected end of input"),
            ParseErrorKind::UnknownTag => push_str(&mut s, "Unknown Tag"),
            ParseErrorKind::SyntaxError => push_str(&mut s, "Syntax Error"),
        }
        assert(s@ =~= parse_error_text(*self));
        s
    }
}


/// Where the line of `t` that holds position `i` ends: the first line
/// feed from `i` on, or the end.
pub open spec fn line_end(t: Seq<char>, i: int) -> int
    decreases t.len() - i,
{
    if i < 0 || i >= t.len() {
        t.len() as int
    } else if t[i] == '\n' {
        i
    } else {
        line_end(t, i + 1)
    }
}

pub proof fn lemma_line_end_bounds(t: Seq<char>, i: int)
    requires
        0 <= i,
    ensures
        i <= t.len() ==> i <= line_end(t, i) <= t.len(),
        line_end(t, i) < t.len() ==> t[line_end(t, i)] == '\n',
    decreases t.len() - i,
{
    if i < t.len() && t[i] != '\n' {
        lemma_line_end_bounds(t, i + 1);
    }
}

/// How many leading characters of `line` (from the `c`th on) fit, UTF-8
/// encoded, in `b` bytes.
pub open spec fn chars_in_bytes(line: Seq<char>, b: int, c: int) -> int
    decreases line.len() - c,
{
    if c < 0 || c >= line.len() || byte_len(line.take(c + 1)) > b {
        c
    } else {
        chars_in_bytes(line, b, c + 1)
    }
}

/// A line that points at a column `w` columns in: dashes, then `^`.
pub open spec fn caret_line(w: nat) -> Seq<char> {
    "----"@ + Seq::new(w, |_i: int| '-') + "^\n"@
}

/// The lines of the text `t` from position `s` on, the first being line
/// `k` (counted from zero), each indented; under a line, a caret where the
/// byte offset `idx` less the line's number falls within the line.
pub open spec fn parser_lines(t: Seq<char>, ws: Seq<i32>, idx: int, s: int, k: int) -> Seq<char>
    decreases t.len() - s,
{
    if s < 0 || s > t.len() {
        Seq::empty()
    } else {
        proof {
            lemma_line_end_bounds(t, s);
        }
        let e = line_end(t, s);
        let line = t.subrange(s, e);
        let b = idx - k;
        let shown = "    "@ + line + seq!['\n'] + if 0 <= b <= byte_len(line) {
            caret_line(visible_width(ws.subrange(s, s + chars_in_bytes(line, b, 0))))
        } else {
            Seq::empty()
        };
        if e >= t.len() { shown } else { shown + parser_lines(t, ws, idx, e + 1, k + 1) }
    }
}

/// Every caret falls on a character boundary of its line.
pub open spec fn carets_on_boundaries(t: Seq<char>, idx: int, s: int, k: int) -> bool
    decreases t.len() - s,
{
    if s < 0 || s > t.len() {
        true
    } else {
        proof {
            lemma_line_end_bounds(t, s);
        }
        let e = line_end(t, s);
        let line = t.subrange(s, e);
        let b = idx - k;
        &&& (0 <= b <= byte_len(line) ==> byte_len(line.take(chars_in_bytes(line, b, 0))) == b)
        &&& (e < t.len() ==> carets_on_boundaries(t, idx, e + 1, k + 1))
    }
}

/// The message of a field name that could not be read: the byte offset,
/// then the input line by line, see [`parser_lines`].
pub open spec fn parser_error_text(t: Seq<char>, ws: Seq<i32>, idx: int) -> Seq<char> {
    "Error parsing column at index "@ + decimal(idx as nat) + ":\n\n"@ + parser_lines(t, ws, idx, 0, 0)
}

fn line_end_exec(t: &[char], i: usize) -> (r: usize)
    requires
        i <= t@.len(),
    ensures
        r == line_end(t@, i as int),
        i <= r <= t@.len(),
{
    proof {
        lemma_line_end_bounds(t@, i as int);
    }
    let mut j = i;
    while j < t.len()
        invariant
            i <= j <= t@.len(),
            line_end(t@, i as int) == line_end(t@, j as int),
        decreases t.len() - j,
    {
        if t[j] == '\n' {
            return j;
        }
        j += 1;
    }
    j
}

/// How many leading characters of `t[s..e]` fit in `b` bytes, and whether
/// the line reaches `b` bytes.
fn scan_bytes(t: &[char], s: usize, e: usize, b: usize) -> (r: (usize, bool))
    requires
        s <= e <= t@.len(),
    ensures
        r.0 as int == chars_in_bytes(t@.subrange(s as int, e as int), b as int, 0),
        r.1 == (b <= byte_len(t@.subrange(s as int, e as int))),
        r.0 <= e - s,
{
    let ghost line = t@.subrange(s as int, e as int);
    let mut c: usize = 0;
    let mut acc: usize = 0;
    assert(line.take(0) =~= Seq::<char>::empty());
    while s + c < e
        invariant
            s <= e <= t@.len(),
            line == t@.subrange(s as int, e as int),
            s + c <= e,
            acc == byte_len(line.take(c as int)),
            acc <= b,
            chars_in_bytes(line, b as int, 0) == chars_in_bytes(line, b as int, c as int),
        decreases e - s - c,
    {
        let u = len_utf8(t[s + c]);
        proof {
            assert(line.take(c + 1) =~= line.take(c as int).push(line[c as int]));
            lemma_byte_len_push(line.take(c as int), line[c as int]);
        }
        if u > b - acc {
            proof {
                assert(line =~= line.take(c + 1) + line.skip(c + 1));
                lemma_byte_len_concat(line.take(c + 1), line.skip(c + 1));
            }
            return (c, true);
        }
        acc = acc + u;
        c += 1;
    }
    assert(line.take(c as int) =~= line);
    (c, acc == b)
}

impl<'a> ParserError<'a> {
    /// The message of the error; `widths` gives the widths of the
    /// characters of the input.  See [`parser_error_text`].
    pub fn to_string(&self, widths: &[i32]) -> (r: String)
        requires
            widths@.len() == self.input_v().len(),
            valid_widths(widths@),
            carets_on_boundaries(self.input_v(), self.index_v() as int, 0, 0),
        ensures
            r@ == parser_error_text(self.input_v(), widths@, self.index_v() as int),
    {
        let t = to_chars(self.input());
        let idx = self.index();
        let ghost ws = widths@;
        let mut out = String::new();
        push_str(&mut out, "Error parsing column at index ");
        push_decimal(&mut out, idx as u64);
        push_str(&mut out, ":\n\n");
        let ghost head = out@;
        let n = t.len();
        let mut s: usize = 0;
        let mut k: usize = 0;
        loop
            invariant_except_break
                out@ + parser_lines(t@, ws, idx as int, s as int, k as int)
                    == head + parser_lines(t@, ws, idx as int, 0, 0),
            invariant
                t@ == self.input_v(),
                n == t@.len(),
                ws == widths@,
                ws.len() == n,
                valid_widths(ws),
                idx == self.index_v(),
                s <= n,
                k <= s,
            ensures
                out@ == head + parser_lines(t@, ws, idx as int, 0, 0),
            decreases n - s,
        {
            let e = line_end_exec(t.as_slice(), s);
            let ghost line = t@.subrange(s as int, e as int);
            let ghost before = out@;
            push_str(&mut out, "    ");
            let mut j = s;
            while j < e
                invariant
                    s <= j <= e <= t@.len(),
                    out@ == before + "    "@ + t@.subrange(s as int, j as int),
                decreases e - j,
            {
                push_char(&mut out, t[j]);
                assert(t@.subrange(s as int, j + 1) =~= t@.subrange(s as int, j as int).push(t@[j as int]));
                j += 1;
            }
            push_char(&mut out, '\n');
            let ghost shown_head = out@;
            if k <= idx {
                let (c, reaches) = scan_bytes(t.as_slice(), s, e, idx - k);
                if reaches {
                    let w = range_width(widths, s, s + c);
                    push_str(&mut out, "----");
                    let mut d: usize = 0;
                    while d < w
                        invariant
                            d <= w,
                            out@ == shown_head + "----"@ + Seq::new(d as nat, |_i: int| '-'),
                        decreases w - d,
                    {
                        push_char(&mut out, '-');
                        assert(Seq::new((d + 1) as nat, |_i: int| '-') =~= Seq::new(d as nat, |_i: int| '-').push('-'));
                        d += 1;
                    }
                    push_str(&mut out, "^\n");
                    assert(out@ =~= shown_head + caret_line(w as nat));
                }
            }
            proof {
                lemma_line_end_bounds(t@, s as int);
                let b = idx - k;
                let caret = if 0 <= b <= byte_len(line) {
                    caret_line(visible_width(ws.subrange(s as int, s + chars_in_bytes(line, b, 0))))
                } else {
                    Seq::<char>::empty()
                };
                assert(out@ =~= before + ("    "@ + line + seq!['\n'] + caret));
            }
            if e >= n {
                proof {
                    assert(parser_lines(t@, ws, idx as int, s as int, k as int) == out@.subrange(before.len() as int,
                        out@.len() as int));
                    assert(out@ =~= before + parser_lines(t@, ws, idx as int, s as int, k as int));
                }
                break;
            }
            proof {
                assert(out@ + parser_lines(t@, ws, idx as int, e + 1, k + 1)
                    =~= before + parser_lines(t@, ws, idx as int, s as int, k as int));
            }
            s = e + 1;
            k = k + 1;
        }
        out
    }
}

} // verus!
