use vstd::prelude::*;
use crate::color::{Color, Color16, palette_index};
use crate::style::{FontStyle, FontWeight, TextDecoration};
use crate::text::{push_char, char_from_u32, is_ascii_control, spec_is_ascii_control, spec_is_ascii_alphanumeric,
    is_ascii_alphanumeric, spec_is_ascii_hexdigit, is_ascii_hexdigit, eq_ignore_ascii_case, chars_eq_ignore_ascii_case};
use crate::char_width::{valid_widths, visible, char_width_ignore_unprintable};
use crate::parse_error::{Tag, ParseErrorKind, ParseError, Location, tag_of_name, tag_from_chars, location_ok, location_of, byte_offsets};
use crate::rich_text::RichText;
use crate::text::{to_chars, byte_offset};
use crate::rich_text::{
    Code, RichTextCode, RichTextStyle, line_view, lines_view, append_to_last, control_codes, control_style,
    default_style, default_style_value, control_style_value, control_symbol, code_width, push_control_codes,
};

verus! {

// ---------------------------------------------------------------------------
// Colour attributes: `=#RRGGBB`, `=default` or `=<palette name>`.
// ---------------------------------------------------------------------------

/// Name of a palette colour in the markup.
pub open spec fn color16_name(c: Color16) -> Seq<char> {
    match c {
        Color16::Black => seq!['b', 'l', 'a', 'c', 'k'],
        Color16::Red => seq!['r', 'e', 'd'],
        Color16::Green => seq!['g', 'r', 'e', 'e', 'n'],
        Color16::Yellow => seq!['y', 'e', 'l', 'l', 'o', 'w'],
        Color16::Blue => seq!['b', 'l', 'u', 'e'],
        Color16::Magenta => seq!['m', 'a', 'g', 'e', 'n', 't', 'a'],
        Color16::Cyan => seq!['c', 'y', 'a', 'n'],
        Color16::White => seq!['w', 'h', 'i', 't', 'e'],
        Color16::BrightBlack => seq!['b', 'r', 'i', 'g', 'h', 't', '_', 'b', 'l', 'a', 'c', 'k'],
        Color16::BrightRed => seq!['b', 'r', 'i', 'g', 'h', 't', '_', 'r', 'e', 'd'],
        Color16::BrightGreen => seq!['b', 'r', 'i', 'g', 'h', 't', '_', 'g', 'r', 'e', 'e', 'n'],
        Color16::BrightYellow => seq!['b', 'r', 'i', 'g', 'h', 't', '_', 'y', 'e', 'l', 'l', 'o', 'w'],
        Color16::BrightBlue => seq!['b', 'r', 'i', 'g', 'h', 't', '_', 'b', 'l', 'u', 'e'],
        Color16::BrightMagenta => seq!['b', 'r', 'i', 'g', 'h', 't', '_', 'm', 'a', 'g', 'e', 'n', 't', 'a'],
        Color16::BrightCyan => seq!['b', 'r', 'i', 'g', 'h', 't', '_', 'c', 'y', 'a', 'n'],
        Color16::BrightWhite => seq!['b', 'r', 'i', 'g', 'h', 't', '_', 'w', 'h', 'i', 't', 'e'],
    }
}

/// The palette colour at a position of the palette.
pub open spec fn color16_at(i: int) -> Color16 {
    if i == 0 { Color16::Black }
    else if i == 1 { Color16::Red }
    else if i == 2 { Color16::Green }
    else if i == 3 { Color16::Yellow }
    else if i == 4 { Color16::Blue }
    else if i == 5 { Color16::Magenta }
    else if i == 6 { Color16::Cyan }
    else if i == 7 { Color16::White }
    else if i == 8 { Color16::BrightBlack }
    else if i == 9 { Color16::BrightRed }
    else if i == 10 { Color16::BrightGreen }
    else if i == 11 { Color16::BrightYellow }
    else if i == 12 { Color16::BrightBlue }
    else if i == 13 { Color16::BrightMagenta }
    else if i == 14 { Color16::BrightCyan }
    else { Color16::BrightWhite }
}

/// The first palette colour from position `i` on whose name matches
/// `name` without regard to ASCII case.
pub open spec fn color16_lookup(name: Seq<char>, i: int) -> Option<Color16>
    decreases 16 - i,
{
    if i < 0 || i >= 16 {
        None
    } else if eq_ignore_ascii_case(name, color16_name(color16_at(i))) {
        Some(color16_at(i))
    } else {
        color16_lookup(name, i + 1)
    }
}

/// The palette colour a name stands for, ignoring ASCII case.
pub open spec fn color16_of_name(name: Seq<char>) -> Option<Color16> {
    color16_lookup(name, 0)
}

fn color16_at_exec(i: usize) -> (c: Color16)
    ensures
        c == color16_at(i as int),
{
    if i == 0 { Color16::Black }
    else if i == 1 { Color16::Red }
    else if i == 2 { Color16::Green }
    else if i == 3 { Color16::Yellow }
    else if i == 4 { Color16::Blue }
    else if i == 5 { Color16::Magenta }
    else if i == 6 { Color16::Cyan }
    else if i == 7 { Color16::White }
    else if i == 8 { Color16::BrightBlack }
    else if i == 9 { Color16::BrightRed }
    else if i == 10 { Color16::BrightGreen }
    else if i == 11 { Color16::BrightYellow }
    else if i == 12 { Color16::BrightBlue }
    else if i == 13 { Color16::BrightMagenta }
    else if i == 14 { Color16::BrightCyan }
    else { Color16::BrightWhite }
}

/// The name of a palette colour in the markup.
pub fn color16_name_chars(c: Color16) -> (r: Vec<char>)
    ensures
        r@ == color16_name(c),
{
    let v = match c {
        Color16::Black => vec!['b', 'l', 'a', 'c', 'k'],
        Color16::Red => vec!['r', 'e', 'd'],
        Color16::Green => vec!['g', 'r', 'e', 'e', 'n'],
        Color16::Yellow => vec!['y', 'e', 'l', 'l', 'o', 'w'],
        Color16::Blue => vec!['b', 'l', 'u', 'e'],
        Color16::Magenta => vec!['m', 'a', 'g', 'e', 'n', 't', 'a'],
        Color16::Cyan => vec!['c', 'y', 'a', 'n'],
        Color16::White => vec!['w', 'h', 'i', 't', 'e'],
        Color16::BrightBlack => vec!['b', 'r', 'i', 'g', 'h', 't', '_', 'b', 'l', 'a', 'c', 'k'],
        Color16::BrightRed => vec!['b', 'r', 'i', 'g', 'h', 't', '_', 'r', 'e', 'd'],
        Color16::BrightGreen => vec!['b', 'r', 'i', 'g', 'h', 't', '_', 'g', 'r', 'e', 'e', 'n'],
        Color16::BrightYellow => vec!['b', 'r', 'i', 'g', 'h', 't', '_', 'y', 'e', 'l', 'l', 'o', 'w'],
        Color16::BrightBlue => vec!['b', 'r', 'i', 'g', 'h', 't', '_', 'b', 'l', 'u', 'e'],
        Color16::BrightMagenta => vec!['b', 'r', 'i', 'g', 'h', 't', '_', 'm', 'a', 'g', 'e', 'n', 't', 'a'],
        Color16::BrightCyan => vec!['b', 'r', 'i', 'g', 'h', 't', '_', 'c', 'y', 'a', 'n'],
        Color16::BrightWhite => vec!['b', 'r', 'i', 'g', 'h', 't', '_', 'w', 'h', 'i', 't', 'e'],
    };
    assert(v@ =~= color16_name(c));
    v
}

/// The palette colour named by `name`, ignoring ASCII case.
pub fn color16_parse(name: &[char]) -> (r: Option<Color16>)
    ensures
        r == color16_of_name(name@),
{
    let mut i: usize = 0;
    while i < 16
        invariant
            i <= 16,
            color16_of_name(name@) == color16_lookup(name@, i as int),
        decreases 16 - i,
    {
        let c = color16_at_exec(i);
        let n = color16_name_chars(c);
        if chars_eq_ignore_ascii_case(name, n.as_slice()) {
            return Some(c);
        }
        i += 1;
    }
    None
}

/// Value of a hexadecimal digit.
pub open spec fn hex_value(c: char) -> u8 {
    if '0' <= c && c <= '9' {
        (c as u32 - '0' as u32) as u8
    } else if 'a' <= c && c <= 'f' {
        (c as u32 - 'a' as u32 + 10) as u8
    } else {
        (c as u32 - 'A' as u32 + 10) as u8
    }
}

/// The first position from `j` on that is not a letter or digit of ASCII
/// or `_`, or the length.
pub open spec fn word_end(t: Seq<char>, j: int) -> int
    decreases t.len() - j,
{
    if j < 0 || j >= t.len() {
        t.len() as int
    } else if !(spec_is_ascii_alphanumeric(t[j]) || t[j] == '_') {
        j
    } else {
        word_end(t, j + 1)
    }
}

/// Whether the rest from `j` holds a character that ends a word.
pub open spec fn word_ends_before_end(t: Seq<char>, j: int) -> bool
    decreases t.len() - j,
{
    if j < 0 || j >= t.len() {
        false
    } else if !(spec_is_ascii_alphanumeric(t[j]) || t[j] == '_') {
        true
    } else {
        word_ends_before_end(t, j + 1)
    }
}

/// A byte written as two hex digits at `k`, or the position of the first
/// bad digit.
pub open spec fn hex_byte(t: Seq<char>, k: int) -> Result<u8, int> {
    if k >= t.len() || !spec_is_ascii_hexdigit(t[k]) {
        Err(k)
    } else if k + 1 >= t.len() || !spec_is_ascii_hexdigit(t[k + 1]) {
        Err(k + 1)
    } else {
        Ok(((hex_value(t[k]) as int) * 16 + hex_value(t[k + 1]) as int) as u8)
    }
}

/// The colour attribute at `j`: the position after it and the colour, or
/// the error and its position.
pub open spec fn color_attr(t: Seq<char>, j: int) -> Result<(int, Color), (ParseErrorKind, int)> {
    if !(j < t.len() && t[j] == '=') {
        Err((ParseErrorKind::SyntaxError, j))
    } else if j + 1 < t.len() && t[j + 1] == '#' {
        match hex_byte(t, j + 2) {
            Err(k) => Err((ParseErrorKind::SyntaxError, k)),
            Ok(r) => match hex_byte(t, j + 4) {
                Err(k) => Err((ParseErrorKind::SyntaxError, k)),
                Ok(g) => match hex_byte(t, j + 6) {
                    Err(k) => Err((ParseErrorKind::SyntaxError, k)),
                    Ok(b) => Ok((j + 8, Color::Rgb { r, g, b })),
                },
            },
        }
    } else if !word_ends_before_end(t, j + 1) {
        Err((ParseErrorKind::UnexpectedEndOfInput, t.len() as int))
    } else {
        let e = word_end(t, j + 1);
        if e == j + 1 {
            Err((ParseErrorKind::SyntaxError, j + 1))
        } else if eq_ignore_ascii_case(t.subrange(j + 1, e), seq!['d', 'e', 'f', 'a', 'u', 'l', 't']) {
            Ok((e, Color::Default))
        } else {
            match color16_of_name(t.subrange(j + 1, e)) {
                Some(c) => Ok((e, Color::Color16(c))),
                None => Err((ParseErrorKind::SyntaxError, j + 1)),
            }
        }
    }
}

/// The number a hexadecimal digit stands for: `0`–`9`, then `a`–`f` or
/// `A`–`F` for ten to fifteen.
pub open spec fn hex_digit_number(c: char) -> int {
    if '0' <= c <= '9' {
        c as int - '0' as int
    } else if 'a' <= c <= 'f' {
        c as int - 'a' as int + 10
    } else {
        c as int - 'A' as int + 10
    }
}

/// The number two hexadecimal digits at `k` and `k + 1` stand for, the
/// first the more significant.
pub open spec fn hex_pair_number(t: Seq<char>, k: int) -> int {
    16 * hex_digit_number(t[k]) + hex_digit_number(t[k + 1])
}

/// A colour written `=#RRGGBB`: red is the first pair of hexadecimal
/// digits, green the second and blue the third, and the attribute ends
/// after them.
pub proof fn hex_colour_is_red_green_blue(t: Seq<char>, j: int)
    requires
        0 <= j,
        j + 8 <= t.len(),
        t[j] == '=',
        t[j + 1] == '#',
        forall|k: int| j + 2 <= k < j + 8 ==> spec_is_ascii_hexdigit(#[trigger] t[k]),
    ensures
        color_attr(t, j) == Ok::<(int, Color), (ParseErrorKind, int)>((j + 8, Color::Rgb {
            r: hex_pair_number(t, j + 2) as u8,
            g: hex_pair_number(t, j + 4) as u8,
            b: hex_pair_number(t, j + 6) as u8,
        })),
        0 <= hex_pair_number(t, j + 2) < 256,
        0 <= hex_pair_number(t, j + 4) < 256,
        0 <= hex_pair_number(t, j + 6) < 256,
{
    assert(spec_is_ascii_hexdigit(t[j + 2]) && spec_is_ascii_hexdigit(t[j + 3]));
    assert(spec_is_ascii_hexdigit(t[j + 4]) && spec_is_ascii_hexdigit(t[j + 5]));
    assert(spec_is_ascii_hexdigit(t[j + 6]) && spec_is_ascii_hexdigit(t[j + 7]));
    assert forall|k: int| j + 2 <= k < j + 8 implies 0 <= hex_digit_number(t[k]) < 16
        && hex_value(t[k]) as int == hex_digit_number(t[k]) by {
        assert(spec_is_ascii_hexdigit(t[k]));
    }
}

fn hex_nibble(c: char) -> (r: u8)
    requires
        spec_is_ascii_hexdigit(c),
    ensures
        r == hex_value(c),
        r < 16,
{
    if '0' <= c && c <= '9' {
        ((c as u32) - ('0' as u32)) as u8
    } else if 'a' <= c && c <= 'f' {
        ((c as u32) - ('a' as u32) + 10) as u8
    } else {
        ((c as u32) - ('A' as u32) + 10) as u8
    }
}

fn parse_hex_byte(t: &[char], k: usize) -> (r: Result<u8, usize>)
    requires
        k <= t@.len() + 8,
    ensures
        match hex_byte(t@, k as int) {
            Ok(v) => r == Ok::<u8, usize>(v),
            Err(p) => r == Err::<u8, usize>(p as usize),
        },
{
    if k >= t.len() || !is_ascii_hexdigit(t[k]) {
        return Err(k);
    }
    if k + 1 >= t.len() || !is_ascii_hexdigit(t[k + 1]) {
        return Err(k + 1);
    }
    let hi = hex_nibble(t[k]);
    let lo = hex_nibble(t[k + 1]);
    Ok(hi * 16 + lo)
}

/// Parses the colour attribute at `j`; see [`color_attr`].
pub fn parse_color_attr(t: &[char], j: usize) -> (r: Result<(usize, Color), (ParseErrorKind, usize)>)
    requires
        j <= t@.len(),
        t@.len() + 8 < usize::MAX,
    ensures
        match color_attr(t@, j as int) {
            Ok((e, c)) => r == Ok::<(usize, Color), (ParseErrorKind, usize)>((e as usize, c)),
            Err((k, p)) => r == Err::<(usize, Color), (ParseErrorKind, usize)>((k, p as usize)),
        },
{
    if !(j < t.len() && t[j] == '=') {
        return Err((ParseErrorKind::SyntaxError, j));
    }
    if j + 1 < t.len() && t[j + 1] == '#' {
        let r = match parse_hex_byte(t, j + 2) {
            Ok(v) => v,
            Err(k) => return Err((ParseErrorKind::SyntaxError, k)),
        };
        let g = match parse_hex_byte(t, j + 4) {
            Ok(v) => v,
            Err(k) => return Err((ParseErrorKind::SyntaxError, k)),
        };
        let b = match parse_hex_byte(t, j + 6) {
            Ok(v) => v,
            Err(k) => return Err((ParseErrorKind::SyntaxError, k)),
        };
        return Ok((j + 8, Color::Rgb { r, g, b }));
    }
    let start = j + 1;
    let mut e = start;
    while e < t.len() && (is_ascii_alphanumeric(t[e]) || t[e] == '_')
        invariant
            start <= e <= t@.len(),
            word_ends_before_end(t@, start as int) == word_ends_before_end(t@, e as int),
            word_end(t@, start as int) == word_end(t@, e as int),
        decreases t.len() - e,
    {
        e += 1;
    }
    if e >= t.len() {
        return Err((ParseErrorKind::UnexpectedEndOfInput, t.len()));
    }
    if e == start {
        return Err((ParseErrorKind::SyntaxError, start));
    }
    let name = vstd::slice::slice_subrange(t, start, e);
    let default_name = ['d', 'e', 'f', 'a', 'u', 'l', 't'];
    assert(default_name@ =~= seq!['d', 'e', 'f', 'a', 'u', 'l', 't']);
    if chars_eq_ignore_ascii_case(name, &default_name) {
        return Ok((e, Color::Default));
    }
    match color16_parse(name) {
        Some(c) => Ok((e, Color::Color16(c))),
        None => Err((ParseErrorKind::SyntaxError, start)),
    }
}


// ---------------------------------------------------------------------------
// The markup parser.
// ---------------------------------------------------------------------------

/// State of the parser: the lines (the last one is being written), the
/// widest finished line, the width of the current line, the text not yet
/// added and its width, the current style, the open tags with the style
/// before each, and the position in the input.
pub ghost struct PState {
    pub lines: Seq<Seq<Code>>,
    pub width: nat,
    pub line_width: nat,
    pub buf: Seq<char>,
    pub buf_width: nat,
    pub style: RichTextStyle,
    pub stack: Seq<(Tag, RichTextStyle)>,
    pub pos: int,
}

/// One step of the parser: the next state, or an error with its kind, its
/// character position, whether the text is restored and the state then.
pub ghost enum PStep {
    Next(PState),
    Fail(ParseErrorKind, int, bool, PState),
}

/// Adds the pending text as one run, where there is any.
pub open spec fn flush_buf(st: PState) -> PState {
    if st.buf.len() > 0 {
        PState {
            lines: append_to_last(st.lines, seq![Code::Text { text: st.buf, width: st.buf_width }]),
            line_width: st.line_width + st.buf_width,
            buf: Seq::<char>::empty(),
            buf_width: 0,
            ..st
        }
    } else {
        st
    }
}

/// Both codes change the same attribute.
pub open spec fn same_kind(a: Code, b: Code) -> bool {
    ||| a is FontWeight && b is FontWeight
    ||| a is FontStyle && b is FontStyle
    ||| a is TextDecoration && b is TextDecoration
    ||| a is Foreground && b is Foreground
    ||| a is Background && b is Background
}

/// Rewrites every change of the attribute of `c` after the last text run
/// to `c`; reports whether there was one.
pub open spec fn replace_back(line: Seq<Code>, c: Code) -> (Seq<Code>, bool)
    decreases line.len(),
{
    if line.len() == 0 {
        (line, false)
    } else if line.last() is Text {
        (line, false)
    } else if same_kind(line.last(), c) {
        let (r, _f) = replace_back(line.drop_last(), c);
        (r.push(c), true)
    } else {
        let (r, f) = replace_back(line.drop_last(), c);
        (r.push(line.last()), f)
    }
}

/// Sets an attribute at the end of a line: the trailing changes of it are
/// rewritten, or the change is added where there is none.
pub open spec fn set_trailing(line: Seq<Code>, c: Code) -> Seq<Code> {
    let (r, f) = replace_back(line, c);
    if f { r } else { line.push(c) }
}

pub open spec fn set_last(lines: Seq<Seq<Code>>, l: Seq<Code>) -> Seq<Seq<Code>> {
    lines.update(lines.len() - 1, l)
}

/// A tag opens: its attribute is set where it changes.  Colour tags read
/// their attribute, whose error leaves the text as it is.
pub open spec fn open_tag(st: PState, tag: Tag, t: Seq<char>, j: int) -> PStep {
    let last = st.lines.last();
    let cur = st.style;
    let r: Result<(int, PState), (ParseErrorKind, int)> = match tag {
        Tag::Bold => Ok((j, if cur.font_weight != FontWeight::Bold {
            PState { lines: set_last(st.lines, set_trailing(last, Code::FontWeight(FontWeight::Bold))),
                style: RichTextStyle { font_weight: FontWeight::Bold, ..cur }, ..st }
        } else { st })),
        Tag::Faint => Ok((j, if cur.font_weight != FontWeight::Faint {
            PState { lines: set_last(st.lines, set_trailing(last, Code::FontWeight(FontWeight::Faint))),
                style: RichTextStyle { font_weight: FontWeight::Faint, ..cur }, ..st }
        } else { st })),
        Tag::Italic => Ok((j, if cur.font_style != FontStyle::Italic {
            PState { lines: set_last(st.lines, set_trailing(last, Code::FontStyle(FontStyle::Italic))),
                style: RichTextStyle { font_style: FontStyle::Italic, ..cur }, ..st }
        } else { st })),
        Tag::Underline => Ok((j, if cur.text_decoration != TextDecoration::Underline {
            PState { lines: set_last(st.lines, set_trailing(last, Code::TextDecoration(TextDecoration::Underline))),
                style: RichTextStyle { text_decoration: TextDecoration::Underline, ..cur }, ..st }
        } else { st })),
        Tag::DoublyUnderline => Ok((j, if cur.text_decoration != TextDecoration::DoublyUnderline {
            PState { lines: set_last(st.lines, set_trailing(last, Code::TextDecoration(TextDecoration::DoublyUnderline))),
                style: RichTextStyle { text_decoration: TextDecoration::DoublyUnderline, ..cur }, ..st }
        } else { st })),
        Tag::Foreground => match color_attr(t, j) {
            Err(e) => Err(e),
            Ok((j2, color)) => Ok((j2, if cur.foreground != color {
                PState { lines: set_last(st.lines, set_trailing(last, Code::Foreground(color))),
                    style: RichTextStyle { foreground: color, ..cur }, ..st }
            } else { st })),
        },
        Tag::Background => match color_attr(t, j) {
            Err(e) => Err(e),
            Ok((j2, color)) => Ok((j2, if cur.background != color {
                PState { lines: set_last(st.lines, set_trailing(last, Code::Background(color))),
                    style: RichTextStyle { background: color, ..cur }, ..st }
            } else { st })),
        },
    };
    match r {
        Err((k, p)) => PStep::Fail(k, p, false, st),
        Ok((j2, s2)) => close_bracket(s2, t, j2),
    }
}

/// A tag must end in `]`.
pub open spec fn close_bracket(st: PState, t: Seq<char>, j: int) -> PStep {
    if j < t.len() && t[j] == ']' {
        PStep::Next(PState { pos: j + 1, ..st })
    } else {
        PStep::Fail(ParseErrorKind::SyntaxError, j, true, st)
    }
}

/// The attribute a tag sets, back to its value in `old`, where it differs.
pub open spec fn restore_attr(st: PState, tag: Tag, old: RichTextStyle) -> PState {
    let cur = st.style;
    match tag {
        Tag::Bold | Tag::Faint => if cur.font_weight != old.font_weight {
            PState { lines: append_to_last(st.lines, seq![Code::FontWeight(old.font_weight)]),
                style: RichTextStyle { font_weight: old.font_weight, ..cur }, ..st }
        } else { st },
        Tag::Italic => if cur.font_style != old.font_style {
            PState { lines: append_to_last(st.lines, seq![Code::FontStyle(old.font_style)]),
                style: RichTextStyle { font_style: old.font_style, ..cur }, ..st }
        } else { st },
        Tag::Underline | Tag::DoublyUnderline => if cur.text_decoration != old.text_decoration {
            PState { lines: append_to_last(st.lines, seq![Code::TextDecoration(old.text_decoration)]),
                style: RichTextStyle { text_decoration: old.text_decoration, ..cur }, ..st }
        } else { st },
        Tag::Foreground => if cur.foreground != old.foreground {
            PState { lines: append_to_last(st.lines, seq![Code::Foreground(old.foreground)]),
                style: RichTextStyle { foreground: old.foreground, ..cur }, ..st }
        } else { st },
        Tag::Background => if cur.background != old.background {
            PState { lines: append_to_last(st.lines, seq![Code::Background(old.background)]),
                style: RichTextStyle { background: old.background, ..cur }, ..st }
        } else { st },
    }
}

/// A closing tag must close the innermost open tag.
pub open spec fn close_tag(st: PState, tag: Tag, t: Seq<char>, j: int) -> PStep {
    if st.stack.len() == 0 {
        PStep::Fail(ParseErrorKind::UnexpectedCloseTag { actual: tag, expected: None }, j, true, st)
    } else if st.stack.last().0 != tag {
        PStep::Fail(ParseErrorKind::UnexpectedCloseTag { actual: tag, expected: Some(st.stack.last().0) }, j, true,
            PState { stack: st.stack.drop_last(), ..st })
    } else {
        let s2 = restore_attr(PState { stack: st.stack.drop_last(), ..st }, tag, st.stack.last().1);
        close_bracket(s2, t, j)
    }
}

/// A tag at `[`, position `pos`.
pub open spec fn tag_step(st: PState, t: Seq<char>) -> PStep {
    let s1 = flush_buf(st);
    let j0 = st.pos + 1;
    let is_end = j0 < t.len() && t[j0] == '/';
    let j = if is_end { j0 + 1 } else { j0 };
    let e = word_end(t, j);
    if e == j {
        PStep::Fail(ParseErrorKind::SyntaxError, j, true, s1)
    } else {
        match tag_of_name(t.subrange(j, e)) {
            None => PStep::Fail(ParseErrorKind::UnknownTag, j, true, s1),
            Some(tag) => if is_end {
                close_tag(s1, tag, t, e)
            } else {
                open_tag(PState { stack: s1.stack.push((tag, s1.style)), ..s1 }, tag, t, e)
            },
        }
    }
}

/// One step at position `pos` of the input.
pub open spec fn parse_step(st: PState, t: Seq<char>, ws: Seq<i32>) -> PStep {
    let c = t[st.pos];
    if c == ']' {
        if st.pos + 1 < t.len() && t[st.pos + 1] == ']' {
            PStep::Next(PState { buf: st.buf.push(']'), buf_width: st.buf_width + visible(ws[st.pos]), pos: st.pos + 2, ..st })
        } else {
            PStep::Fail(ParseErrorKind::SyntaxError, st.pos, true, st)
        }
    } else if c == '[' {
        if st.pos + 1 < t.len() && t[st.pos + 1] == '[' {
            PStep::Next(PState { buf: st.buf.push('['), buf_width: st.buf_width + visible(ws[st.pos]), pos: st.pos + 2, ..st })
        } else {
            tag_step(st, t)
        }
    } else if spec_is_ascii_control(c) {
        let s1 = flush_buf(st);
        if c == '\n' {
            PStep::Next(PState {
                lines: s1.lines.push(Seq::<Code>::empty()),
                width: if s1.line_width > s1.width { s1.line_width } else { s1.width },
                line_width: 0,
                pos: st.pos + 1,
                ..s1
            })
        } else {
            PStep::Next(PState {
                lines: append_to_last(s1.lines, control_codes(s1.style, c)),
                line_width: s1.line_width + 1,
                pos: st.pos + 1,
                ..s1
            })
        }
    } else {
        PStep::Next(PState { buf: st.buf.push(c), buf_width: st.buf_width + visible(ws[st.pos]), pos: st.pos + 1, ..st })
    }
}

/// How parsing ends: the lines and width, or an error with its kind, its
/// character position and the lines and width the text is left with.
pub ghost enum ParseOutcome {
    Done(Seq<Seq<Code>>, nat),
    Failed(ParseErrorKind, int, Seq<Seq<Code>>, nat),
}

/// After an error the text loses the lines added by the parse and gets
/// its old width back, where the error restores it.
pub open spec fn failed(k: ParseErrorKind, p: int, restore: bool, st: PState, old_len: nat, old_width: nat) -> ParseOutcome {
    if restore {
        ParseOutcome::Failed(k, p, st.lines.take(old_len as int), old_width)
    } else {
        ParseOutcome::Failed(k, p, st.lines, st.width)
    }
}

/// At the end of the input every tag must be closed; the pending text is
/// added and the width covers the last line.
pub open spec fn parse_finish(st: PState, t: Seq<char>, old_len: nat, old_width: nat) -> ParseOutcome {
    if st.stack.len() > 0 {
        failed(ParseErrorKind::ExpectedCloseTag(st.stack.last().0), t.len() as int, true, st, old_len, old_width)
    } else {
        let s1 = flush_buf(st);
        ParseOutcome::Done(s1.lines, if s1.line_width > s1.width { s1.line_width } else { s1.width })
    }
}

/// The parser from state `st` to the end of the input.
pub open spec fn parse_from(st: PState, t: Seq<char>, ws: Seq<i32>, old_len: nat, old_width: nat) -> ParseOutcome
    decreases t.len() - st.pos,
{
    if st.pos < 0 || st.pos >= t.len() {
        parse_finish(st, t, old_len, old_width)
    } else {
        match parse_step(st, t, ws) {
            PStep::Fail(k, p, restore, s) => failed(k, p, restore, s, old_len, old_width),
            PStep::Next(s2) => if s2.pos > st.pos {
                parse_from(s2, t, ws, old_len, old_width)
            } else {
                ParseOutcome::Done(s2.lines, s2.width)
            },
        }
    }
}

/// The result of appending the markup `t` to lines `lines` of width
/// `width`.  A new line is started where there is none; the width of the
/// current line is counted from zero.
pub open spec fn parse_rich(lines: Seq<Seq<Code>>, width: nat, t: Seq<char>, ws: Seq<i32>) -> ParseOutcome {
    let l0 = if lines.len() == 0 { seq![Seq::<Code>::empty()] } else { lines };
    let st0 = PState {
        lines: l0,
        width,
        line_width: 0,
        buf: Seq::<char>::empty(),
        buf_width: 0,
        style: default_style(),
        stack: Seq::empty(),
        pos: 0,
    };
    parse_from(st0, t, ws, lines.len(), width)
}


/// Rewrites the trailing changes of the attribute of `c` to `c`, or adds
/// `c`; see [`set_trailing`].
fn set_trailing_exec(line: &mut Vec<RichTextCode>, c: RichTextCode)
    requires
        !(c@ is Text),
    ensures
        line_view(final(line)@) == set_trailing(line_view(old(line)@), c@),
{
    let ghost orig = line_view(line@);
    let ghost cv = c@;
    let mut j = line.len();
    let mut found = false;
    let mut stopped = false;
    proof {
        assert(orig.take(j as int) =~= orig);
        assert(line_view(line@).skip(j as int) =~= Seq::<Code>::empty());
        let (r, f) = replace_back(orig, cv);
        assert(r + Seq::<Code>::empty() =~= r);
    }
    while j > 0 && !stopped
        invariant
            j <= line@.len(),
            line@.len() == orig.len(),
            line_view(line@).take(j as int) == orig.take(j as int),
            !(cv is Text),
            !stopped ==> replace_back(orig, cv) == ({
                let (r, f) = replace_back(orig.take(j as int), cv);
                (r + line_view(line@).skip(j as int), f || found)
            }),
            stopped ==> replace_back(orig, cv) == (line_view(line@), found),
            !found ==> line_view(line@) == orig,
            c@ == cv,
        decreases j * 2 + (if stopped { 0int } else { 1int }),
    {
        let ghost before = line_view(line@);
        let ghost pre = orig.take(j as int);
        assert(pre.drop_last() =~= orig.take(j - 1));
        assert(pre.last() == line@[j - 1]@);
        let kind = match (&line[j - 1], &c) {
            (RichTextCode::Text { .. }, _) => 0u8,
            (RichTextCode::FontWeight(_), RichTextCode::FontWeight(_)) => 1u8,
            (RichTextCode::FontStyle(_), RichTextCode::FontStyle(_)) => 1u8,
            (RichTextCode::TextDecoration(_), RichTextCode::TextDecoration(_)) => 1u8,
            (RichTextCode::Foreground(_), RichTextCode::Foreground(_)) => 1u8,
            (RichTextCode::Background(_), RichTextCode::Background(_)) => 1u8,
            _ => 2u8,
        };
        if kind == 0 {
            stopped = true;
            assert(before =~= pre + before.skip(j as int));
        } else {
            if kind == 1 {
                line[j - 1] = c.duplicate();
                found = true;
            }
            let ghost now = line_view(line@);
            assert(now =~= before.update(j - 1, now[j - 1]));
            assert(now.take(j - 1) =~= orig.take(j - 1));
            assert(now.skip(j - 1) =~= seq![now[j - 1]] + before.skip(j as int));
            let ghost r = replace_back(orig.take(j - 1), cv);
            assert(r.0.push(now[j - 1]) + before.skip(j as int) =~= r.0 + now.skip(j - 1));
            j -= 1;
        }
    }
    proof {
        if !stopped {
            assert(orig.take(0) =~= Seq::<Code>::empty());
            assert(line_view(line@).skip(0) =~= line_view(line@));
            assert(Seq::<Code>::empty() + line_view(line@).skip(0) =~= line_view(line@));
            assert(replace_back(orig.take(0), cv) == (Seq::<Code>::empty(), false));
        }
        let (r, f) = replace_back(orig, cv);
        assert(r == line_view(line@) && f == found);
    }
    if !found {
        let ghost lb = line_view(line@);
        line.push(c);
        assert(line_view(line@) =~= lb.push(cv));
    }
}

/// The parser's working state.
pub struct Parser {
    pub done: Vec<Vec<RichTextCode>>,
    pub line: Vec<RichTextCode>,
    pub width: usize,
    pub line_width: usize,
    pub buf: String,
    pub buf_width: usize,
    pub style: RichTextStyle,
    pub stack: Vec<(Tag, RichTextStyle)>,
    pub pos: usize,
}

impl Parser {
    pub open spec fn view(&self) -> PState {
        PState {
            lines: lines_view(self.done@).push(line_view(self.line@)),
            width: self.width as nat,
            line_width: self.line_width as nat,
            buf: self.buf@,
            buf_width: self.buf_width as nat,
            style: self.style,
            stack: self.stack@,
            pos: self.pos as int,
        }
    }

    /// The widths seen so far fit in two columns a character.
    pub open spec fn bounded(&self, n: nat) -> bool {
        &&& self.line_width + self.buf_width <= 2 * self.pos
        &&& self.pos <= n
        &&& n <= usize::MAX / 4
    }

    fn flush(&mut self)
        requires
            old(self).line_width + old(self).buf_width <= usize::MAX,
        ensures
            final(self).done@.len() >= old(self).done@.len(),
            final(self).view() == flush_buf(old(self).view()),
            final(self).line_width + final(self).buf_width == old(self).line_width + old(self).buf_width,
    {
        if !self.buf.as_str().is_empty() {
            let ghost before = self.view();
            let ghost lb = line_view(self.line@);
            let code = RichTextCode::Text { text: self.buf.clone(), width: self.buf_width };
            self.line.push(code);
            self.line_width = self.line_width + self.buf_width;
            self.buf = String::new();
            self.buf_width = 0;
            assert(line_view(self.line@) =~= lb.push(Code::Text { text: before.buf, width: before.buf_width }));
            assert(lb + seq![Code::Text { text: before.buf, width: before.buf_width }] =~= lb.push(Code::Text { text: before.buf, width: before.buf_width }));
            assert(self.view().lines =~= append_to_last(before.lines, seq![Code::Text { text: before.buf, width: before.buf_width }]));
            assert(self.view().buf =~= Seq::<char>::empty());
        } else {
            assert(self.buf@.len() == 0);
        }
    }

    fn set_attr(&mut self, c: RichTextCode)
        requires
            !(c@ is Text),
        ensures
            final(self).done@.len() >= old(self).done@.len(),
            final(self).view() == (PState { lines: set_last(old(self).view().lines, set_trailing(old(self).view().lines.last(), c@)), ..old(self).view() }),
            final(self).line_width == old(self).line_width,
            final(self).buf_width == old(self).buf_width,
            final(self).pos == old(self).pos,
    {
        let ghost before = self.view();
        set_trailing_exec(&mut self.line, c);
        assert(self.view().lines =~= set_last(before.lines, set_trailing(before.lines.last(), c@)));
    }

    fn push_attr(&mut self, c: RichTextCode)
        ensures
            final(self).done@.len() >= old(self).done@.len(),
            final(self).view() == (PState { lines: append_to_last(old(self).view().lines, seq![c@]), ..old(self).view() }),
            final(self).line_width == old(self).line_width,
            final(self).buf_width == old(self).buf_width,
            final(self).pos == old(self).pos,
    {
        let ghost before = self.view();
        let ghost lb = line_view(self.line@);
        let ghost cv = c@;
        self.line.push(c);
        assert(line_view(self.line@) =~= lb.push(cv));
        assert(lb + seq![cv] =~= lb.push(cv));
        assert(self.view().lines =~= append_to_last(before.lines, seq![cv]));
    }

    /// Expects `]` at `j` and moves past it.
    fn close_bracket_exec(&mut self, t: &[char], j: usize) -> (r: Option<(ParseErrorKind, usize, bool)>)
        requires
            j <= t@.len(),
        ensures
            final(self).done@.len() >= old(self).done@.len(),
            match close_bracket(old(self).view(), t@, j as int) {
                PStep::Next(s) => r is None && final(self).view() == s,
                PStep::Fail(k, p, restore, s) => r == Some((k, p as usize, restore)) && final(self).view() == s,
            },
            final(self).line_width == old(self).line_width,
            final(self).buf_width == old(self).buf_width,
            r is None ==> final(self).pos == j + 1,
    {
        if j < t.len() && t[j] == ']' {
            self.pos = j + 1;
            None
        } else {
            Some((ParseErrorKind::SyntaxError, j, true))
        }
    }

    fn open_tag_exec(&mut self, tag: Tag, t: &[char], j: usize) -> (r: Option<(ParseErrorKind, usize, bool)>)
        requires
            j <= t@.len(),
            t@.len() <= usize::MAX / 4,
        ensures
            final(self).done@.len() >= old(self).done@.len(),
            match open_tag(old(self).view(), tag, t@, j as int) {
                PStep::Next(s) => r is None && final(self).view() == s,
                PStep::Fail(k, p, restore, s) => r == Some((k, p as usize, restore)) && final(self).view() == s,
            },
            final(self).line_width == old(self).line_width,
            final(self).buf_width == old(self).buf_width,
            r is None ==> final(self).pos > j,
    {
        let ghost st = self.view();
        let mut j2 = j;
        match tag {
            Tag::Bold => {
                if self.style.font_weight != FontWeight::Bold {
                    self.set_attr(RichTextCode::FontWeight(FontWeight::Bold));
                    self.style.font_weight = FontWeight::Bold;
                }
            },
            Tag::Faint => {
                if self.style.font_weight != FontWeight::Faint {
                    self.set_attr(RichTextCode::FontWeight(FontWeight::Faint));
                    self.style.font_weight = FontWeight::Faint;
                }
            },
            Tag::Italic => {
                if self.style.font_style != FontStyle::Italic {
                    self.set_attr(RichTextCode::FontStyle(FontStyle::Italic));
                    self.style.font_style = FontStyle::Italic;
                }
            },
            Tag::Underline => {
                if self.style.text_decoration != TextDecoration::Underline {
                    self.set_attr(RichTextCode::TextDecoration(TextDecoration::Underline));
                    self.style.text_decoration = TextDecoration::Underline;
                }
            },
            Tag::DoublyUnderline => {
                if self.style.text_decoration != TextDecoration::DoublyUnderline {
                    self.set_attr(RichTextCode::TextDecoration(TextDecoration::DoublyUnderline));
                    self.style.text_decoration = TextDecoration::DoublyUnderline;
                }
            },
            Tag::Foreground => {
                match parse_color_attr(t, j) {
                    Err((k, p)) => {
                        return Some((k, p, false));
                    },
                    Ok((e, color)) => {
                        j2 = e;
                        if self.style.foreground != color {
                            self.set_attr(RichTextCode::Foreground(color));
                            self.style.foreground = color;
                        }
                    },
                }
            },
            Tag::Background => {
                match parse_color_attr(t, j) {
                    Err((k, p)) => {
                        return Some((k, p, false));
                    },
                    Ok((e, color)) => {
                        j2 = e;
                        if self.style.background != color {
                            self.set_attr(RichTextCode::Background(color));
                            self.style.background = color;
                        }
                    },
                }
            },
        }
        proof {
            lemma_color_attr_end(t@, j as int);
        }
        self.close_bracket_exec(t, j2)
    }

    fn close_tag_exec(&mut self, tag: Tag, t: &[char], j: usize) -> (r: Option<(ParseErrorKind, usize, bool)>)
        requires
            j <= t@.len(),
        ensures
            final(self).done@.len() >= old(self).done@.len(),
            match close_tag(old(self).view(), tag, t@, j as int) {
                PStep::Next(s) => r is None && final(self).view() == s,
                PStep::Fail(k, p, restore, s) => r == Some((k, p as usize, restore)) && final(self).view() == s,
            },
            final(self).line_width == old(self).line_width,
            final(self).buf_width == old(self).buf_width,
            r is None ==> final(self).pos == j + 1,
    {
        let ghost st = self.view();
        let top = self.stack.pop();
        match top {
            None => {
                assert(self.stack@ =~= st.stack);
                Some((ParseErrorKind::UnexpectedCloseTag { actual: tag, expected: None }, j, true))
            },
            Some((old_tag, old_style)) => {
                if old_tag != tag {
                    return Some((ParseErrorKind::UnexpectedCloseTag { actual: tag, expected: Some(old_tag) }, j, true));
                }
                match tag {
                    Tag::Bold | Tag::Faint => {
                        if self.style.font_weight != old_style.font_weight {
                            self.push_attr(RichTextCode::FontWeight(old_style.font_weight));
                            self.style.font_weight = old_style.font_weight;
                        }
                    },
                    Tag::Italic => {
                        if self.style.font_style != old_style.font_style {
                            self.push_attr(RichTextCode::FontStyle(old_style.font_style));
                            self.style.font_style = old_style.font_style;
                        }
                    },
                    Tag::Underline | Tag::DoublyUnderline => {
                        if self.style.text_decoration != old_style.text_decoration {
                            self.push_attr(RichTextCode::TextDecoration(old_style.text_decoration));
                            self.style.text_decoration = old_style.text_decoration;
                        }
                    },
                    Tag::Foreground => {
                        if self.style.foreground != old_style.foreground {
                            self.push_attr(RichTextCode::Foreground(old_style.foreground));
                            self.style.foreground = old_style.foreground;
                        }
                    },
                    Tag::Background => {
                        if self.style.background != old_style.background {
                            self.push_attr(RichTextCode::Background(old_style.background));
                            self.style.background = old_style.background;
                        }
                    },
                }
                self.close_bracket_exec(t, j)
            },
        }
    }

    /// A tag at `[`, position `pos`; see [`tag_step`].
    fn tag_step_exec(&mut self, t: &[char]) -> (r: Option<(ParseErrorKind, usize, bool)>)
        requires
            old(self).pos < t@.len(),
            t@.len() <= usize::MAX / 4,
            old(self).line_width + old(self).buf_width <= usize::MAX,
        ensures
            final(self).done@.len() >= old(self).done@.len(),
            match tag_step(old(self).view(), t@) {
                PStep::Next(s) => r is None && final(self).view() == s,
                PStep::Fail(k, p, restore, s) => r == Some((k, p as usize, restore)) && final(self).view() == s,
            },
            final(self).line_width + final(self).buf_width == old(self).line_width + old(self).buf_width,
            r is None ==> final(self).pos > old(self).pos,
    {
        self.flush();
        let j0 = self.pos + 1;
        let is_end = j0 < t.len() && t[j0] == '/';
        let j = if is_end { j0 + 1 } else { j0 };
        let mut e = j;
        while e < t.len() && (is_ascii_alphanumeric(t[e]) || t[e] == '_')
            invariant
                j <= e <= t@.len(),
                word_end(t@, j as int) == word_end(t@, e as int),
            decreases t.len() - e,
        {
            e += 1;
        }
        if e == j {
            return Some((ParseErrorKind::SyntaxError, j, true));
        }
        match tag_from_chars(t, j, e) {
            None => Some((ParseErrorKind::UnknownTag, j, true)),
            Some(tag) => {
                if is_end {
                    self.close_tag_exec(tag, t, e)
                } else {
                    let ghost s1 = self.view();
                    self.stack.push((tag, self.style));
                    assert(self.view() == PState { stack: s1.stack.push((tag, s1.style)), ..s1 });
                    self.open_tag_exec(tag, t, e)
                }
            },
        }
    }

    /// One step of the parser; see [`parse_step`].
    fn step(&mut self, t: &[char], ws: &[i32]) -> (r: Option<(ParseErrorKind, usize, bool)>)
        requires
            old(self).pos < t@.len(),
            ws@.len() == t@.len(),
            valid_widths(ws@),
            old(self).bounded(t@.len()),
        ensures
            final(self).done@.len() >= old(self).done@.len(),
            match parse_step(old(self).view(), t@, ws@) {
                PStep::Next(s) => r is None && final(self).view() == s,
                PStep::Fail(k, p, restore, s) => r == Some((k, p as usize, restore)) && final(self).view() == s,
            },
            r is None ==> final(self).pos > old(self).pos && final(self).bounded(t@.len()),
    {
        let c = t[self.pos];
        let ghost st = self.view();
        let w = ws[self.pos];
        assert(-1 <= ws@[self.pos as int] <= 2);
        if c == ']' {
            if self.pos + 1 < t.len() && t[self.pos + 1] == ']' {
                push_char(&mut self.buf, ']');
                self.buf_width = self.buf_width + char_width_ignore_unprintable(w);
                self.pos = self.pos + 2;
                None
            } else {
                Some((ParseErrorKind::SyntaxError, self.pos, true))
            }
        } else if c == '[' {
            if self.pos + 1 < t.len() && t[self.pos + 1] == '[' {
                push_char(&mut self.buf, '[');
                self.buf_width = self.buf_width + char_width_ignore_unprintable(w);
                self.pos = self.pos + 2;
                None
            } else {
                self.tag_step_exec(t)
            }
        } else if is_ascii_control(c) {
            self.flush();
            if c == '\n' {
                if self.line_width > self.width {
                    self.width = self.line_width;
                }
                self.line_width = 0;
                let ghost s1 = self.view();
                let mut fresh: Vec<RichTextCode> = Vec::new();
                std::mem::swap(&mut fresh, &mut self.line);
                self.done.push(fresh);
                assert(line_view(self.line@) =~= Seq::<Code>::empty());
                assert(self.view().lines =~= s1.lines.push(Seq::<Code>::empty()));
            } else {
                let ghost s1 = self.view();
                let ghost lb = line_view(self.line@);
                push_control_codes(&mut self.line, &self.style, c);
                self.line_width = self.line_width + 1;
                assert(self.view().lines =~= append_to_last(s1.lines, control_codes(s1.style, c)));
            }
            self.pos = self.pos + 1;
            None
        } else {
            push_char(&mut self.buf, c);
            self.buf_width = self.buf_width + char_width_ignore_unprintable(w);
            self.pos = self.pos + 1;
            None
        }
    }
}

proof fn lemma_color_attr_end(t: Seq<char>, j: int)
    requires
        0 <= j <= t.len(),
    ensures
        color_attr(t, j) matches Ok((e, _)) ==> j < e <= t.len(),
{
    if j < t.len() && t[j] == '=' && !(j + 1 < t.len() && t[j + 1] == '#') && word_ends_before_end(t, j + 1) {
        lemma_word_end_bounds(t, j + 1);
    }
}

proof fn lemma_word_end_bounds(t: Seq<char>, j: int)
    requires
        0 <= j <= t.len(),
    ensures
        j <= word_end(t, j) <= t.len(),
    decreases t.len() - j,
{
    if j < t.len() && (spec_is_ascii_alphanumeric(t[j]) || t[j] == '_') {
        lemma_word_end_bounds(t, j + 1);
    }
}


/// Errors of the parse can be located (see [`location_ok`]).
pub open spec fn parse_locatable(o: ParseOutcome, t: Seq<char>) -> bool {
    match o {
        ParseOutcome::Failed(_, p, _, _) => location_ok(t, p),
        _ => true,
    }
}

/// The rich text and the error that an outcome stands for.
pub open spec fn outcome_matches(o: ParseOutcome, t: Seq<char>, r: Result<(), ParseError>, lines: Seq<Seq<Code>>, width: nat) -> bool {
    match o {
        ParseOutcome::Done(l, w) => r is Ok && lines == l && width == w,
        ParseOutcome::Failed(k, p, l, w) => {
            &&& r matches Err(e)
            &&& e.kind == k
            &&& e.index == byte_offset(t, p)
            &&& e.location == location_of(t, p)
            &&& lines == l
            &&& width == w
        },
    }
}

impl RichText {
    /// Parses `rich_text` and appends it.  On an error the lines added are
    /// taken away again and the width restored, except after a malformed
    /// colour attribute, which leaves what was appended so far.
    pub fn append_rich_text(&mut self, rich_text: &str, widths: &[i32]) -> (r: Result<(), ParseError>)
        requires
            widths@.len() == rich_text@.len(),
            valid_widths(widths@),
            parse_locatable(parse_rich(old(self).lines_v(), old(self).width as nat, rich_text@, widths@), rich_text@),
        ensures
            outcome_matches(parse_rich(old(self).lines_v(), old(self).width as nat, rich_text@, widths@), rich_text@, r,
                final(self).lines_v(), final(self).width as nat),
    {
        let t = to_chars(rich_text);
        let n = t.len();
        let offs = byte_offsets(t.as_slice());
        let ghost ts = t@;
        let ghost outcome = parse_rich(self.lines_v(), self.width as nat, ts, widths@);
        let old_len = self.lines.len();
        let old_width = self.width;
        let mut done: Vec<Vec<RichTextCode>> = Vec::new();
        std::mem::swap(&mut done, &mut self.lines);
        let ghost l0 = lines_view(done@);
        let line = match done.pop() {
            Some(l) => l,
            None => Vec::new(),
        };
        let mut p = Parser {
            done,
            line,
            width: self.width,
            line_width: 0,
            buf: String::new(),
            buf_width: 0,
            style: default_style_value(),
            stack: Vec::new(),
            pos: 0,
        };
        proof {
            if l0.len() == 0 {
                assert(line_view(p.line@) =~= Seq::<Code>::empty());
                assert(p.view().lines =~= seq![Seq::<Code>::empty()]);
            } else {
                assert(p.view().lines =~= l0);
            }
            assert(p.view().stack =~= Seq::<(Tag, RichTextStyle)>::empty());
            assert(p.view().buf =~= Seq::<char>::empty());
        }
        while p.pos < n
            invariant
                n == ts.len(),
                ts == t@,
                ts == rich_text@,
                widths@.len() == n,
                valid_widths(widths@),
                offs@.len() == n + 1,
                forall|j: int| 0 <= j <= n ==> offs@[j] == byte_offset(ts, j),
                p.bounded(n as nat),
                p.done@.len() + 1 >= old_len,
                parse_from(p.view(), ts, widths@, old_len as nat, old_width as nat) == outcome,
                parse_locatable(outcome, ts),
                outcome == parse_rich(old(self).lines_v(), old(self).width as nat, ts, widths@),
                old_len == old(self).lines_v().len(),
                old_width == old(self).width,
            decreases n - p.pos,
        {
            let ghost before = p.view();
            match p.step(t.as_slice(), widths) {
                None => {},
                Some((kind, pos, restore)) => {
                    let ghost fs = p.view();
                    proof {
                        match parse_step(before, ts, widths@) {
                            PStep::Fail(k2, p2, r2, s2) => {
                                assert(outcome == failed(k2, p2, r2, s2, old_len as nat, old_width as nat));
                                assert(location_ok(ts, p2));
                                assert(p2 == pos as int);
                            },
                            PStep::Next(_) => {},
                        }
                    }
                    p.done.push(p.line);
                    self.lines = p.done;
                    assert(self.lines_v() =~= fs.lines);
                    if restore {
                        self.lines.truncate(old_len);
                        self.width = old_width;
                        assert(self.lines_v() =~= fs.lines.take(old_len as int));
                    } else {
                        self.width = p.width;
                    }
                    let err = ParseError {
                        kind,
                        index: offs[pos],
                        location: Location::from_char_pos(t.as_slice(), offs.as_slice(), pos),
                    };
                    proof {
                        match parse_step(before, ts, widths@) {
                            PStep::Fail(k2, p2, r2, s2) => {
                                assert(k2 == kind);
                                assert(r2 == restore);
                                assert(s2 == fs);
                                assert(err.index == byte_offset(ts, p2));
                                assert(err.location == location_of(ts, p2));
                                if r2 {
                                    assert(self.lines_v() == s2.lines.take(old_len as int));
                                    assert(self.width == old_width);
                                } else {
                                    assert(self.lines_v() == s2.lines);
                                    assert(self.width == s2.width);
                                }
                            },
                            PStep::Next(_) => {},
                        }
                    }
                    return Err(err);
                },
            }
        }
        if p.stack.len() > 0 {
            let ghost fs = p.view();
            let tag = p.stack[p.stack.len() - 1].0;
            p.done.push(p.line);
            self.lines = p.done;
            assert(self.lines_v() =~= fs.lines);
            self.lines.truncate(old_len);
            self.width = old_width;
            assert(self.lines_v() =~= fs.lines.take(old_len as int));
            return Err(ParseError {
                kind: ParseErrorKind::ExpectedCloseTag(tag),
                index: offs[n],
                location: Location::from_char_pos(t.as_slice(), offs.as_slice(), n),
            });
        }
        p.flush();
        if p.line_width > p.width {
            p.width = p.line_width;
        }
        let ghost fs = p.view();
        p.done.push(p.line);
        self.lines = p.done;
        self.width = p.width;
        assert(self.lines_v() =~= fs.lines);
        Ok(())
    }

    /// Parses rich text markup into a new rich text.
    pub fn parse(rich_text: &str, widths: &[i32]) -> (r: Result<RichText, ParseError>)
        requires
            widths@.len() == rich_text@.len(),
            valid_widths(widths@),
            parse_locatable(parse_rich(Seq::empty(), 0, rich_text@, widths@), rich_text@),
        ensures
            match parse_rich(Seq::empty(), 0, rich_text@, widths@) {
                ParseOutcome::Done(l, w) => r matches Ok(rt) && rt.lines_v() == l && rt.width == w,
                ParseOutcome::Failed(k, p, _, _) => r matches Err(e) && e.kind == k && e.index == byte_offset(rich_text@, p)
                    && e.location == location_of(rich_text@, p),
            },
    {
        let mut rt = RichText::new();
        match rt.append_rich_text(rich_text, widths) {
            Ok(()) => Ok(rt),
            Err(e) => Err(e),
        }
    }
}

} // verus!