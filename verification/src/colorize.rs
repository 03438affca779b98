use vstd::prelude::*;
use crate::text::{
    to_chars, char_at, unicode_alphanumeric, unicode_whitespace, is_alphanumeric, is_whitespace,
    is_ascii_digit, is_ascii_hexdigit, spec_is_ascii_digit, spec_is_ascii_hexdigit, starts_with,
    starts_with_at,
};
use crate::char_width::valid_widths;
use crate::wrap::{trim_point, lemma_trim_point_bounds};
use crate::rich_text::{RichText, RichTextStyle, Code, append_text_result, room_for, last_line_width, default_style, default_style_value};
use crate::styles::{
    error_style, number_style, symbol_style, keyword_style, string_style, escape_style,
    error_style_value, number_style_value, symbol_style_value, keyword_style_value, string_style_value,
    escape_style_value,
};

verus! {

/// A piece of the text, `start..end` in characters, and the style it is
/// shown in.
#[derive(Debug, Clone, Copy)]
pub struct Segment {
    pub style: RichTextStyle,
    pub start: usize,
    pub end: usize,
}

impl View for Segment {
    type V = (RichTextStyle, int, int);

    open spec fn view(&self) -> (RichTextStyle, int, int) {
        (self.style, self.start as int, self.end as int)
    }
}

pub open spec fn segs_view(s: Seq<Segment>) -> Seq<(RichTextStyle, int, int)> {
    s.map_values(|x: Segment| x@)
}

/// The pieces lie in order inside `0..n`.
pub open spec fn segs_ordered(s: Seq<(RichTextStyle, int, int)>, n: int) -> bool {
    &&& forall|j: int| 0 <= j < s.len() ==> 0 <= (#[trigger] s[j]).1 <= s[j].2 <= n
    &&& forall|i: int, j: int| 0 <= i < j < s.len() ==> (#[trigger] s[i]).2 <= (#[trigger] s[j]).1
}

/// The pieces all end at or before `p`.
pub open spec fn segs_before(s: Seq<(RichTextStyle, int, int)>, p: int) -> bool {
    s.len() > 0 ==> s.last().2 <= p
}

/// The text shown in the default style.
pub open spec fn plain(a: int, b: int) -> Seq<(RichTextStyle, int, int)> {
    if a < b { seq![(default_style(), a, b)] } else { seq![] }
}

/// The result of appending the pieces `segs` of `t`, one after the other,
/// each in its style.
pub open spec fn apply_segs(lines: Seq<Seq<Code>>, width: nat, t: Seq<char>, ws: Seq<i32>, segs: Seq<(RichTextStyle, int, int)>) -> (Seq<Seq<Code>>, nat)
    decreases segs.len(),
{
    if segs.len() == 0 {
        (lines, width)
    } else {
        let (l1, w1) = apply_segs(lines, width, t, ws, segs.drop_last());
        let s = segs.last();
        append_text_result(l1, w1, s.0, t.subrange(s.1, s.2), ws.subrange(s.1, s.2))
    }
}

// ---------------------------------------------------------------------------
// JSON
// ---------------------------------------------------------------------------

/// Characters at which text that is not JSON stops being shown as an
/// error.
pub open spec fn ok_json_char(c: char) -> bool {
    unicode_whitespace(c) || spec_is_ascii_digit(c) || c == '"' || c == '{' || c == '}' || c == '['
        || c == ']' || c == ',' || c == ':' || c == '-'
}

/// The first character from `j` on where [`ok_json_char`] holds, or the end.
pub open spec fn find_ok(t: Seq<char>, j: int) -> int
    decreases t.len() - j,
{
    if j < 0 || j >= t.len() {
        t.len() as int
    } else if ok_json_char(t[j]) {
        j
    } else {
        find_ok(t, j + 1)
    }
}

/// `t` holds `kw` at `j`, not followed by a letter, digit or `_`.
pub open spec fn keyword_at(t: Seq<char>, j: int, kw: Seq<char>) -> bool {
    &&& 0 <= j
    &&& starts_with(t.skip(j), kw)
    &&& (j + kw.len() == t.len() || (!unicode_alphanumeric(t[j + kw.len()]) && t[j + kw.len()] != '_'))
}

/// Characters after a backslash that make a complete escape.
pub open spec fn simple_escape(c: char) -> bool {
    c == '\\' || c == '/' || c == 'b' || c == 'f' || c == 'n' || c == 'r' || c == 't' || c == '"'
}

/// End of the hexadecimal digits of a `\u` escape: at most four, from
/// `j`, `count` of them already taken.
pub open spec fn hex_end(t: Seq<char>, j: int, count: nat) -> int
    decreases 4 - count,
{
    if count < 4 && 0 <= j < t.len() && spec_is_ascii_hexdigit(t[j]) {
        hex_end(t, j + 1, count + 1)
    } else {
        j
    }
}

/// The rest of a string literal whose current piece starts at `prev`,
/// from `index` on: where it ends and its pieces.  The closing quote ends
/// the last string piece; escapes are pieces of their own, complete ones
/// in the escape style and malformed ones in the error style (for an
/// unknown escape only the backslash); a literal that is not closed adds
/// nothing more.
pub open spec fn string_scan(t: Seq<char>, prev: int, index: int) -> (int, Seq<(RichTextStyle, int, int)>)
    decreases t.len() - index,
{
    if index < 0 || index >= t.len() {
        (t.len() as int, seq![])
    } else if t[index] == '"' {
        (index + 1, seq![(string_style(), prev, index + 1)])
    } else if t[index] == '\\' {
        let s0 = if index > prev { seq![(string_style(), prev, index)] } else { seq![] };
        let i2 = index + 1;
        if i2 >= t.len() {
            (t.len() as int, s0.push((error_style(), index, t.len() as int)))
        } else if simple_escape(t[i2]) {
            let (e, s) = string_scan(t, i2 + 1, i2 + 1);
            (e, s0.push((escape_style(), index, i2 + 1)) + s)
        } else if t[i2] == 'u' {
            let h = hex_end(t, i2 + 1, 0);
            proof {
                lemma_hex_end_bounds(t, i2 + 1, 0);
            }
            let st = if h - (i2 + 1) != 4 { error_style() } else { escape_style() };
            let (e, s) = string_scan(t, h, h);
            (e, s0.push((st, index, h)) + s)
        } else {
            let (e, s) = string_scan(t, i2, i2);
            (e, s0.push((error_style(), index, index + 1)) + s)
        }
    } else {
        string_scan(t, prev, index + 1)
    }
}

pub proof fn lemma_hex_end_bounds(t: Seq<char>, j: int, count: nat)
    requires
        count <= 4,
    ensures
        j <= hex_end(t, j, count) <= j + (4 - count),
        0 <= j <= t.len() ==> hex_end(t, j, count) <= t.len(),
    decreases 4 - count,
{
    if count < 4 && 0 <= j < t.len() && spec_is_ascii_hexdigit(t[j]) {
        lemma_hex_end_bounds(t, j + 1, count + 1);
    }
}

/// A string literal at `index`: where it ends and its pieces.
pub open spec fn string_literal(t: Seq<char>, index: int) -> (int, Seq<(RichTextStyle, int, int)>) {
    if 0 <= index < t.len() && t[index] == '"' {
        string_scan(t, index, index + 1)
    } else {
        (index, seq![])
    }
}

/// End of the run of ASCII digits from `j`.
pub open spec fn digits_end(t: Seq<char>, j: int) -> int
    decreases t.len() - j,
{
    if j < 0 || j >= t.len() || !spec_is_ascii_digit(t[j]) {
        j
    } else {
        digits_end(t, j + 1)
    }
}

/// The character that decides what follows a run of digits ending at `k`
/// (`k > 0`): the one at `k`, or the last digit where the text ends there.
pub open spec fn after_digits(t: Seq<char>, k: int) -> char {
    if k < t.len() { t[k] } else { t[k - 1] }
}

/// The exponent part of a number that started at `prev`, where the digits
/// before it end at `k` and `c` is the character after them.
pub open spec fn number_exponent(t: Seq<char>, prev: int, k: int, c: char) -> (int, Seq<(RichTextStyle, int, int)>) {
    if c == 'e' || c == 'E' {
        let j = k + 1;
        if j >= t.len() {
            (j, seq![(error_style(), prev, j)])
        } else {
            let j2 = if t[j] == '-' || t[j] == '+' { j + 1 } else { j };
            if j2 >= t.len() {
                (j2, seq![(error_style(), prev, j2)])
            } else if !spec_is_ascii_digit(t[j2]) {
                (j2, seq![(error_style(), prev, j2)])
            } else {
                let k3 = digits_end(t, j2);
                number_end(t, prev, k3, after_digits(t, k3))
            }
        }
    } else {
        number_end(t, prev, k, c)
    }
}

/// A number from `prev` to `k`, `c` the character after it: an error
/// where a letter, digit or `_` follows.
pub open spec fn number_end(t: Seq<char>, prev: int, k: int, c: char) -> (int, Seq<(RichTextStyle, int, int)>) {
    if unicode_alphanumeric(c) || c == '_' {
        (k, seq![(error_style(), prev, k)])
    } else {
        (k, seq![(number_style(), prev, k)])
    }
}

/// A JSON number at `prev`: where it ends and its piece, in the number
/// style or, where it is malformed, the error style.
pub open spec fn number_scan(t: Seq<char>, prev: int) -> (int, Seq<(RichTextStyle, int, int)>) {
    if prev < 0 || prev >= t.len() {
        (prev, seq![])
    } else if t[prev] == '-' && prev + 1 >= t.len() {
        (prev + 1, seq![(error_style(), prev, prev + 1)])
    } else {
        let i1 = if t[prev] == '-' { prev + 1 } else { prev };
        if !spec_is_ascii_digit(t[i1]) {
            (i1, if i1 > prev { seq![(error_style(), prev, i1)] } else { seq![] })
        } else {
            let k = digits_end(t, i1);
            if k >= t.len() {
                (k, seq![(number_style(), prev, k)])
            } else if t[k] == '.' {
                let j = k + 1;
                if j >= t.len() || !spec_is_ascii_digit(t[j]) {
                    (j, seq![(error_style(), prev, j)])
                } else {
                    let k2 = digits_end(t, j);
                    number_exponent(t, prev, k2, after_digits(t, k2))
                }
            } else {
                number_exponent(t, prev, k, t[k])
            }
        }
    }
}

pub proof fn lemma_digits_end_bounds(t: Seq<char>, j: int)
    requires
        0 <= j <= t.len(),
    ensures
        j <= digits_end(t, j) <= t.len(),
        j < t.len() && spec_is_ascii_digit(t[j]) ==> digits_end(t, j) > j,
        digits_end(t, j) > j ==> spec_is_ascii_digit(t[digits_end(t, j) - 1]),
    decreases t.len() - j,
{
    if j < t.len() && spec_is_ascii_digit(t[j]) {
        lemma_digits_end_bounds(t, j + 1);
    }
}

pub proof fn lemma_find_ok_bounds(t: Seq<char>, j: int)
    requires
        0 <= j <= t.len(),
    ensures
        j <= find_ok(t, j) <= t.len(),
        j < t.len() && !ok_json_char(t[j]) ==> find_ok(t, j) > j,
    decreases t.len() - j,
{
    if j < t.len() && !ok_json_char(t[j]) {
        lemma_find_ok_bounds(t, j + 1);
    }
}

pub proof fn lemma_string_scan_bounds(t: Seq<char>, prev: int, index: int)
    requires
        0 <= prev <= index <= t.len(),
    ensures
        index <= string_scan(t, prev, index).0 <= t.len(),
        index < t.len() ==> string_scan(t, prev, index).0 > index,
    decreases t.len() - index,
{
    if index < t.len() {
        if t[index] == '"' {
        } else if t[index] == '\\' {
            let i2 = index + 1;
            if i2 >= t.len() {
            } else if simple_escape(t[i2]) {
                lemma_string_scan_bounds(t, i2 + 1, i2 + 1);
            } else if t[i2] == 'u' {
                lemma_hex_end_bounds(t, i2 + 1, 0);
                let h = hex_end(t, i2 + 1, 0);
                lemma_string_scan_bounds(t, h, h);
            } else {
                lemma_string_scan_bounds(t, i2, i2);
            }
        } else {
            lemma_string_scan_bounds(t, prev, index + 1);
        }
    }
}

pub proof fn lemma_number_scan_bounds(t: Seq<char>, prev: int)
    requires
        0 <= prev < t.len(),
        spec_is_ascii_digit(t[prev]) || t[prev] == '-',
    ensures
        prev < number_scan(t, prev).0 <= t.len(),
{
    if !(t[prev] == '-' && prev + 1 >= t.len()) {
        let i1 = if t[prev] == '-' { prev + 1 } else { prev };
        if spec_is_ascii_digit(t[i1]) {
            lemma_digits_end_bounds(t, i1);
            let k = digits_end(t, i1);
            if k < t.len() && t[k] == '.' {
                let j = k + 1;
                if j < t.len() && spec_is_ascii_digit(t[j]) {
                    lemma_digits_end_bounds(t, j);
                    let k2 = digits_end(t, j);
                    lemma_exponent_bounds(t, prev, k2, after_digits(t, k2));
                }
            } else if k < t.len() {
                lemma_exponent_bounds(t, prev, k, t[k]);
            }
        }
    }
}

proof fn lemma_exponent_bounds(t: Seq<char>, prev: int, k: int, c: char)
    requires
        0 <= prev < k <= t.len(),
        (c == 'e' || c == 'E') ==> k < t.len(),
    ensures
        prev < number_exponent(t, prev, k, c).0 <= t.len(),
{
    if c == 'e' || c == 'E' {
        let j = k + 1;
        if j < t.len() {
            let j2 = if t[j] == '-' || t[j] == '+' { j + 1 } else { j };
            if j2 < t.len() && spec_is_ascii_digit(t[j2]) {
                lemma_digits_end_bounds(t, j2);
            }
        }
    }
}

/// The pieces of JSON text from `index` on, where the previous token
/// ended: white space in the default style, then the keywords `null`,
/// `true` and `false`, string literals, the structural characters and
/// numbers in their styles; anything else up to the next character that
/// can start or separate JSON is an error.
pub open spec fn json_from(t: Seq<char>, index: int) -> Seq<(RichTextStyle, int, int)>
    decreases t.len() - index,
{
    if index < 0 || index > t.len() {
        seq![]
    } else {
        let i = trim_point(t, index);
        proof {
            lemma_trim_point_bounds(t, index);
        }
        let lead = plain(index, i);
        if keyword_at(t, i, "null"@) {
            proof { reveal_strlit("null"); }
            lead.push((keyword_style(), i, i + 4)) + json_from(t, i + 4)
        } else if keyword_at(t, i, "true"@) {
            proof { reveal_strlit("true"); }
            lead.push((keyword_style(), i, i + 4)) + json_from(t, i + 4)
        } else if keyword_at(t, i, "false"@) {
            proof { reveal_strlit("false"); }
            lead.push((keyword_style(), i, i + 5)) + json_from(t, i + 5)
        } else if i < t.len() {
            let c = t[i];
            if c == '"' {
                proof { lemma_string_scan_bounds(t, i, i + 1); }
                let (e, s) = string_scan(t, i, i + 1);
                lead + s + json_from(t, e)
            } else if c == '{' || c == '}' || c == '[' || c == ']' || c == ',' || c == ':' {
                lead.push((symbol_style(), i, i + 1)) + json_from(t, i + 1)
            } else if spec_is_ascii_digit(c) || c == '-' {
                proof { lemma_number_scan_bounds(t, i); }
                let (e, s) = number_scan(t, i);
                lead + s + json_from(t, e)
            } else {
                proof {
                    lemma_find_ok_bounds(t, i);
                    assert(!unicode_whitespace(c)) by {
                        lemma_trim_point_stop(t, index);
                    }
                }
                let ok = find_ok(t, i);
                lead + (if ok > i { seq![(error_style(), i, ok)] } else { seq![] }) + json_from(t, ok)
            }
        } else {
            lead
        }
    }
}

/// [`trim_point`] stops at a character that is not white space.
pub proof fn lemma_trim_point_stop(t: Seq<char>, j: int)
    requires
        0 <= j <= t.len(),
    ensures
        trim_point(t, j) < t.len() ==> !unicode_whitespace(t[trim_point(t, j)]),
    decreases t.len() - j,
{
    if j < t.len() && unicode_whitespace(t[j]) {
        lemma_trim_point_stop(t, j + 1);
    }
}

/// The pieces of a JSON text.
pub open spec fn json_segments(t: Seq<char>) -> Seq<(RichTextStyle, int, int)> {
    json_from(t, 0)
}

// ---------------------------------------------------------------------------
// The pieces follow one another
// ---------------------------------------------------------------------------

/// The pieces follow one another from `a`: the first starts at `a` and
/// each next one where the one before it ends.
pub open spec fn follow_on(s: Seq<(RichTextStyle, int, int)>, a: int) -> bool {
    &&& s.len() > 0 ==> s[0].1 == a
    &&& forall|i: int, j: int| 0 <= i && j == i + 1 && j < s.len() ==> (#[trigger] s[i]).2 == (#[trigger] s[j]).1
}

/// Where pieces that follow on from `a` end: `a` where there are none.
pub open spec fn pieces_end(s: Seq<(RichTextStyle, int, int)>, a: int) -> int {
    if s.len() == 0 { a } else { s.last().2 }
}

pub proof fn lemma_follow_on_concat(s1: Seq<(RichTextStyle, int, int)>, s2: Seq<(RichTextStyle, int, int)>, a: int)
    requires
        follow_on(s1, a),
        follow_on(s2, pieces_end(s1, a)),
    ensures
        follow_on(s1 + s2, a),
        pieces_end(s1 + s2, a) == pieces_end(s2, pieces_end(s1, a)),
{
    let s = s1 + s2;
    assert forall|i: int, j: int| 0 <= i && j == i + 1 && j < s.len() implies (#[trigger] s[i]).2 == (#[trigger] s[j]).1 by {
        if j < s1.len() {
            assert(s[i] == s1[i] && s[j] == s1[j]);
        } else if i >= s1.len() {
            assert(s[i] == s2[i - s1.len()] && s[j] == s2[j - s1.len()]);
        } else {
            assert(s[i] == s1[i] && s[j] == s2[0]);
        }
    }
    if s1.len() == 0 {
        assert(s =~= s2);
    } else {
        assert(s[0] == s1[0]);
    }
}

proof fn lemma_follow_on_one(p: (RichTextStyle, int, int), a: int)
    requires
        p.1 == a,
    ensures
        follow_on(seq![p], a),
        pieces_end(seq![p], a) == p.2,
{
}

/// The rest of a string literal: its pieces follow on from where its
/// current piece starts, and end where the literal ends, except where the
/// literal is not closed before the end of the text.
proof fn lemma_string_scan_follows(t: Seq<char>, prev: int, index: int)
    requires
        0 <= prev <= index <= t.len(),
    ensures
        follow_on(string_scan(t, prev, index).1, prev),
        pieces_end(string_scan(t, prev, index).1, prev) == string_scan(t, prev, index).0
            || string_scan(t, prev, index).0 == t.len(),
    decreases t.len() - index,
{
    if index < t.len() {
        if t[index] == '"' {
            lemma_follow_on_one((string_style(), prev, index + 1), prev);
        } else if t[index] == '\\' {
            let s0 = if index > prev { seq![(string_style(), prev, index)] } else { seq![] };
            assert(follow_on(s0, prev) && pieces_end(s0, prev) == index);
            let i2 = index + 1;
            if i2 >= t.len() {
                lemma_follow_on_concat(s0, seq![(error_style(), index, t.len() as int)], prev);
                assert(s0.push((error_style(), index, t.len() as int)) =~= s0 + seq![(error_style(), index, t.len() as int)]);
            } else {
                let (p, next) = if simple_escape(t[i2]) {
                    ((escape_style(), index, i2 + 1), i2 + 1)
                } else if t[i2] == 'u' {
                    lemma_hex_end_bounds(t, i2 + 1, 0);
                    let h = hex_end(t, i2 + 1, 0);
                    let st = if h - (i2 + 1) != 4 { error_style() } else { escape_style() };
                    ((st, index, h), h)
                } else {
                    ((error_style(), index, index + 1), i2)
                };
                lemma_string_scan_follows(t, next, next);
                let (e, s) = string_scan(t, next, next);
                lemma_follow_on_concat(s0, seq![p], prev);
                assert(s0.push(p) =~= s0 + seq![p]);
                lemma_follow_on_concat(s0.push(p), s, prev);
            }
        } else {
            lemma_string_scan_follows(t, prev, index + 1);
        }
    }
}

/// A number's pieces: none, where it ends where it starts, or one piece
/// from its start to its end.
proof fn lemma_number_scan_follows(t: Seq<char>, prev: int)
    requires
        0 <= prev < t.len(),
        spec_is_ascii_digit(t[prev]) || t[prev] == '-',
    ensures
        follow_on(number_scan(t, prev).1, prev),
        pieces_end(number_scan(t, prev).1, prev) == number_scan(t, prev).0,
{
}

/// A keyword of `n` characters at `i`, after white space from `index`.
proof fn lemma_keyword_follows(t: Seq<char>, index: int, i: int, n: int)
    requires
        0 <= index <= i,
        i + n <= t.len(),
        n > 0,
        i == trim_point(t, index),
    ensures
        follow_on(plain(index, i).push((keyword_style(), i, i + n)) + json_from(t, i + n), index),
    decreases t.len() - index, 0int,
{
    let lead = plain(index, i);
    assert(follow_on(lead, index) && pieces_end(lead, index) == i);
    lemma_json_from_follows(t, i + n);
    let p = (keyword_style(), i, i + n);
    lemma_follow_on_concat(lead, seq![p], index);
    assert(lead.push(p) =~= lead + seq![p]);
    lemma_follow_on_concat(lead.push(p), json_from(t, i + n), index);
}

/// The pieces of JSON text from `index` on follow one another from
/// `index`.
proof fn lemma_json_from_follows(t: Seq<char>, index: int)
    requires
        0 <= index <= t.len(),
    ensures
        follow_on(json_from(t, index), index),
    decreases t.len() - index, 1int,
{
    let i = trim_point(t, index);
    lemma_trim_point_bounds(t, index);
    let lead = plain(index, i);
    assert(follow_on(lead, index) && pieces_end(lead, index) == i);
    if keyword_at(t, i, "null"@) {
        reveal_strlit("null");
        lemma_keyword_follows(t, index, i, 4);
    } else if keyword_at(t, i, "true"@) {
        reveal_strlit("true");
        lemma_keyword_follows(t, index, i, 4);
    } else if keyword_at(t, i, "false"@) {
        reveal_strlit("false");
        lemma_keyword_follows(t, index, i, 5);
    } else if i < t.len() {
        let c = t[i];
        if c == '"' {
            lemma_string_scan_bounds(t, i, i + 1);
            lemma_string_scan_follows(t, i, i + 1);
            let (e, s) = string_scan(t, i, i + 1);
            lemma_json_from_follows(t, e);
            lemma_follow_on_concat(lead, s, index);
            if e == t.len() {
                reveal_strlit("null");
                reveal_strlit("true");
                reveal_strlit("false");
                assert(trim_point(t, e) == e);
                assert(json_from(t, e).len() == 0);
            }
            lemma_follow_on_concat(lead + s, json_from(t, e), index);
        } else if c == '{' || c == '}' || c == '[' || c == ']' || c == ',' || c == ':' {
            lemma_json_from_follows(t, i + 1);
            let p = (symbol_style(), i, i + 1);
            lemma_follow_on_concat(lead, seq![p], index);
            assert(lead.push(p) =~= lead + seq![p]);
            lemma_follow_on_concat(lead.push(p), json_from(t, i + 1), index);
        } else if spec_is_ascii_digit(c) || c == '-' {
            lemma_number_scan_bounds(t, i);
            lemma_number_scan_follows(t, i);
            let (e, s) = number_scan(t, i);
            lemma_json_from_follows(t, e);
            lemma_follow_on_concat(lead, s, index);
            lemma_follow_on_concat(lead + s, json_from(t, e), index);
        } else {
            lemma_trim_point_stop(t, index);
            lemma_find_ok_bounds(t, i);
            let ok = find_ok(t, i);
            let err = if ok > i { seq![(error_style(), i, ok)] } else { seq![] };
            lemma_json_from_follows(t, ok);
            lemma_follow_on_concat(lead, err, index);
            lemma_follow_on_concat(lead + err, json_from(t, ok), index);
        }
    }
}

/// In JSON text, a keyword `null`, `true` or `false` where a token starts
/// (after any white space from `index`) is one piece in the keyword style,
/// right after the white space before it.
pub proof fn json_keyword_is_one_piece(t: Seq<char>, index: int, kw: Seq<char>)
    requires
        0 <= index <= t.len(),
        kw == "null"@ || kw == "true"@ || kw == "false"@,
        keyword_at(t, trim_point(t, index), kw),
    ensures
        ({
            let i = trim_point(t, index);
            let lead = plain(index, i);
            &&& json_from(t, index).len() > lead.len()
            &&& json_from(t, index)[lead.len() as int] == (keyword_style(), i, i + kw.len())
        }),
{
    reveal_strlit("null");
    reveal_strlit("true");
    reveal_strlit("false");
    let i = trim_point(t, index);
    lemma_trim_point_bounds(t, index);
    let lead = plain(index, i);
    assert(t.skip(i).subrange(0, kw.len() as int)[0] == kw[0]);
    if kw == "null"@ {
        assert(json_from(t, index) == lead.push((keyword_style(), i, i + 4)) + json_from(t, i + 4));
    } else if kw == "true"@ {
        assert(!keyword_at(t, i, "null"@));
        assert(json_from(t, index) == lead.push((keyword_style(), i, i + 4)) + json_from(t, i + 4));
    } else {
        assert(!keyword_at(t, i, "null"@));
        assert(!keyword_at(t, i, "true"@));
        assert(json_from(t, index) == lead.push((keyword_style(), i, i + 5)) + json_from(t, i + 5));
    }
}

/// JSON colouring repeats no character and leaves none out between its
/// pieces: they follow one another from the start of the text.  (A string
/// literal that is never closed adds no piece for its rest.)
pub proof fn json_pieces_follow_on(t: Seq<char>)
    ensures
        follow_on(json_segments(t), 0),
{
    lemma_json_from_follows(t, 0);
}

} // verus!

verus! {

/// Adds the piece `a..b` in `style`.
pub(crate) fn push_seg(segs: &mut Vec<Segment>, style: RichTextStyle, a: usize, b: usize)
    ensures
        segs_view(final(segs)@) == segs_view(old(segs)@).push((style, a as int, b as int)),
{
    segs.push(Segment { style, start: a, end: b });
    assert(segs_view(segs@) =~= segs_view(old(segs)@).push((style, a as int, b as int)));
}

/// A piece added after the others keeps them in order.
pub(crate) proof fn lemma_push_ordered(s: Seq<(RichTextStyle, int, int)>, x: (RichTextStyle, int, int), n: int, p: int)
    requires
        segs_ordered(s, n),
        segs_before(s, p),
        p <= x.1 <= x.2 <= n,
        0 <= x.1,
    ensures
        segs_ordered(s.push(x), n),
        segs_before(s.push(x), x.2),
{
    let s2 = s.push(x);
    assert forall|i: int, j: int| 0 <= i < j < s2.len() implies (#[trigger] s2[i]).2 <= (#[trigger] s2[j]).1 by {
        assert(s2[i] == s[i]);
        if j < s.len() {
            assert(s2[j] == s[j]);
        } else {
            assert(s[i].2 <= s[i].2);
            if i < s.len() - 1 {
                assert(s[i].2 <= s[s.len() - 1].1);
            }
            assert(s[s.len() - 1] == s.last());
        }
    }
    assert forall|j: int| 0 <= j < s2.len() implies 0 <= (#[trigger] s2[j]).1 <= s2[j].2 <= n by {
        if j < s.len() {
            assert(s2[j] == s[j]);
        }
    }
}

/// The first character from `index` on that is not white space.
pub(crate) fn skipws(t: &[char], index: usize) -> (r: usize)
    requires
        index <= t@.len(),
    ensures
        r == trim_point(t@, index as int),
        index <= r <= t@.len(),
{
    proof {
        lemma_trim_point_bounds(t@, index as int);
    }
    let mut k = index;
    while k < t.len()
        invariant
            index <= k <= t@.len(),
            trim_point(t@, index as int) == trim_point(t@, k as int),
        decreases t.len() - k,
    {
        if !is_whitespace(char_at(t, k)) {
            return k;
        }
        k += 1;
    }
    k
}

/// See [`find_ok`].
fn find_ok_json_char(t: &[char], index: usize) -> (r: usize)
    requires
        index <= t@.len(),
    ensures
        r == find_ok(t@, index as int),
{
    let mut k = index;
    while k < t.len()
        invariant
            index <= k <= t@.len(),
            find_ok(t@, index as int) == find_ok(t@, k as int),
        decreases t.len() - k,
    {
        let c = char_at(t, k);
        if is_whitespace(c) || is_ascii_digit(c) || c == '"' || c == '{' || c == '}' || c == '[' || c == ']'
            || c == ',' || c == ':' || c == '-' {
            return k;
        }
        k += 1;
    }
    k
}

/// `t` holds `kw` at `i`, not followed by a letter, digit or `_`; see
/// [`keyword_at`].
fn keyword_at_exec(t: &[char], i: usize, kw: &[char]) -> (r: bool)
    requires
        i <= t@.len(),
    ensures
        r == keyword_at(t@, i as int, kw@),
{
    let klen = kw.len();
    if klen > t.len() - i {
        return false;
    }
    if !starts_with_at(t, i, kw) {
        return false;
    }
    let j = i + klen;
    if j == t.len() {
        return true;
    }
    let c = char_at(t, j);
    !is_alphanumeric(c) && c != '_'
}

/// `text` starts with the word `keyword`: the keyword, not followed by a
/// letter, digit or `_`.
pub fn startswith_keyword(text: &str, keyword: &str) -> (r: bool)
    ensures
        r == keyword_at(text@, 0, keyword@),
{
    let t = to_chars(text);
    let k = to_chars(keyword);
    keyword_at_exec(t.as_slice(), 0, k.as_slice())
}

/// A backslash at `i` inside a string literal whose current piece starts
/// at `prev`: the pieces up to the end of the escape are added, and the
/// scan goes on from the returned position, as [`string_scan`] does.
#[verifier::rlimit(80)]
fn escape_step(t: &[char], prev: usize, i: usize, segs: &mut Vec<Segment>) -> (r: usize)
    requires
        prev <= i < t@.len(),
        t@[i as int] == '\\',
        segs_ordered(segs_view(old(segs)@), t@.len() as int),
        segs_before(segs_view(old(segs)@), prev as int),
    ensures
        i < r <= t@.len(),
        i + 1 >= t@.len() ==> r == t@.len() && segs_view(final(segs)@) == segs_view(old(segs)@) + string_scan(t@, prev as int, i as int).1
            && string_scan(t@, prev as int, i as int).0 == t@.len(),
        i + 1 < t@.len() ==> segs_view(final(segs)@) + string_scan(t@, r as int, r as int).1
            == segs_view(old(segs)@) + string_scan(t@, prev as int, i as int).1
            && string_scan(t@, r as int, r as int).0 == string_scan(t@, prev as int, i as int).0,
        segs_ordered(segs_view(final(segs)@), t@.len() as int),
        segs_before(segs_view(final(segs)@), r as int),
{
    let n = t.len();
    let ghost before = segs_view(segs@);
    let ghost cur = string_scan(t@, prev as int, i as int);
    if i > prev {
        proof {
            lemma_push_ordered(before, (string_style(), prev as int, i as int), n as int, prev as int);
        }
        push_seg(segs, string_style_value(), prev, i);
    }
    let ghost s0 = if i > prev { seq![(string_style(), prev as int, i as int)] } else { seq![] };
    assert(segs_view(segs@) =~= before + s0);
    let i2 = i + 1;
    let ghost b2 = segs_view(segs@);
    if i2 >= n {
        proof {
            lemma_push_ordered(b2, (error_style(), i as int, n as int), n as int, i as int);
        }
        push_seg(segs, error_style_value(), i, n);
        assert(segs_view(segs@) =~= before + cur.1);
        return n;
    }
    let c2 = char_at(t, i2);
    if c2 == '\\' || c2 == '/' || c2 == 'b' || c2 == 'f' || c2 == 'n' || c2 == 'r' || c2 == 't' || c2 == '"' {
        proof {
            lemma_push_ordered(b2, (escape_style(), i as int, i2 + 1), n as int, i as int);
        }
        push_seg(segs, escape_style_value(), i, i2 + 1);
        assert(segs_view(segs@) + string_scan(t@, i2 + 1, i2 + 1).1 =~= before + cur.1);
        i2 + 1
    } else if c2 == 'u' {
        let mut j = i2 + 1;
        let mut count: usize = 0;
        while count < 4 && j < n && is_ascii_hexdigit(char_at(t, j))
            invariant
                n == t@.len(),
                i2 + 1 <= j <= n,
                count <= 4,
                j == i2 + 1 + count,
                hex_end(t@, i2 + 1, 0) == hex_end(t@, j as int, count as nat),
            decreases 4 - count,
        {
            j += 1;
            count += 1;
        }
        let st = if count != 4 { error_style_value() } else { escape_style_value() };
        proof {
            lemma_push_ordered(b2, (st, i as int, j as int), n as int, i as int);
        }
        push_seg(segs, st, i, j);
        assert(segs_view(segs@) + string_scan(t@, j as int, j as int).1 =~= before + cur.1);
        j
    } else {
        proof {
            lemma_push_ordered(b2, (error_style(), i as int, i + 1), n as int, i as int);
        }
        push_seg(segs, error_style_value(), i, i + 1);
        assert(segs_view(segs@) + string_scan(t@, i2 as int, i2 as int).1 =~= before + cur.1);
        i2
    }
}

/// The string literal at `index`; its pieces are added to `segs`.  See
/// [`string_literal`].
#[verifier::rlimit(80)]
fn colorize_string(t: &[char], index: usize, segs: &mut Vec<Segment>) -> (r: usize)
    requires
        index <= t@.len(),
        segs_ordered(segs_view(old(segs)@), t@.len() as int),
        segs_before(segs_view(old(segs)@), index as int),
    ensures
        r == string_literal(t@, index as int).0,
        segs_view(final(segs)@) == segs_view(old(segs)@) + string_literal(t@, index as int).1,
        segs_ordered(segs_view(final(segs)@), t@.len() as int),
        segs_before(segs_view(final(segs)@), r as int),
        index <= r <= t@.len(),
        index < t@.len() && t@[index as int] == '"' ==> index < r,
{
    let n = t.len();
    if index >= n || char_at(t, index) != '"' {
        assert(segs_view(segs@) =~= segs_view(old(segs)@) + seq![]);
        return index;
    }
    let ghost start = segs_view(segs@);
    let ghost target = string_scan(t@, index as int, index + 1);
    proof {
        lemma_string_scan_bounds(t@, index as int, index + 1);
    }
    let mut prev = index;
    let mut i = index + 1;
    while i < n
        invariant
            n == t@.len(),
            prev <= i <= n,
            index <= prev,
            string_scan(t@, prev as int, i as int).0 == target.0,
            segs_view(segs@) + string_scan(t@, prev as int, i as int).1 == start + target.1,
            target == string_literal(t@, index as int),
            index < n,
            t@[index as int] == '"',
            start == segs_view(old(segs)@),
            index < target.0,
            segs_ordered(segs_view(segs@), n as int),
            segs_before(segs_view(segs@), prev as int),
        decreases n - i,
    {
        let c = char_at(t, i);
        let ghost cur = string_scan(t@, prev as int, i as int);
        if c == '"' {
            let ghost before = segs_view(segs@);
            proof {
                lemma_push_ordered(before, (string_style(), prev as int, i + 1), n as int, prev as int);
            }
            push_seg(segs, string_style_value(), prev, i + 1);
            assert(segs_view(segs@) =~= start + target.1);
            return i + 1;
        } else if c == '\\' {
            let ghost before = segs_view(segs@);
            let j = escape_step(t, prev, i, segs);
            if j >= n && (i + 1 >= n) {
                assert(segs_view(segs@) =~= start + target.1);
                return n;
            }
            prev = j;
            i = j;
        } else {
            i += 1;
        }
    }
    assert(segs_view(segs@) =~= start + target.1);
    n
}

/// The number at `index`; its piece is added to `segs`.  See
/// [`number_scan`].
fn colorize_number(t: &[char], index: usize, segs: &mut Vec<Segment>) -> (r: usize)
    requires
        index < t@.len(),
        spec_is_ascii_digit(t@[index as int]) || t@[index as int] == '-',
        segs_ordered(segs_view(old(segs)@), t@.len() as int),
        segs_before(segs_view(old(segs)@), index as int),
    ensures
        r == number_scan(t@, index as int).0,
        segs_view(final(segs)@) == segs_view(old(segs)@) + number_scan(t@, index as int).1,
        segs_ordered(segs_view(final(segs)@), t@.len() as int),
        segs_before(segs_view(final(segs)@), r as int),
        index < r <= t@.len(),
{
    proof {
        lemma_number_scan_bounds(t@, index as int);
    }
    let ghost start = segs_view(segs@);
    let ghost target = number_scan(t@, index as int);
    let n = t.len();
    let prev = index;
    let (end, st) = number_piece(t, prev);
    proof {
        lemma_push_ordered(start, (st, prev as int, end as int), n as int, prev as int);
    }
    push_seg(segs, st, prev, end);
    assert(segs_view(segs@) =~= start + target.1);
    end
}

/// Where the number at `prev` ends and its style.
fn number_piece(t: &[char], prev: usize) -> (r: (usize, RichTextStyle))
    requires
        prev < t@.len(),
        spec_is_ascii_digit(t@[prev as int]) || t@[prev as int] == '-',
    ensures
        number_scan(t@, prev as int) == (r.0 as int, seq![(r.1, prev as int, r.0 as int)]),
{
    let n = t.len();
    let c0 = char_at(t, prev);
    if c0 == '-' && prev + 1 >= n {
        return (prev + 1, error_style_value());
    }
    let i1 = if c0 == '-' { prev + 1 } else { prev };
    let c1 = char_at(t, i1);
    if !is_ascii_digit(c1) {
        return (i1, error_style_value());
    }
    proof {
        lemma_digits_end_bounds(t@, i1 as int);
    }
    let k = digits_end_exec(t, i1);
    if k >= n {
        return (k, number_style_value());
    }
    let ck = char_at(t, k);
    let (k2, c) = if ck == '.' {
        let j = k + 1;
        if j >= n || !is_ascii_digit(char_at(t, j)) {
            return (j, error_style_value());
        }
        proof {
            lemma_digits_end_bounds(t@, j as int);
        }
        let k2 = digits_end_exec(t, j);
        let c = if k2 < n { char_at(t, k2) } else { char_at(t, k2 - 1) };
        (k2, c)
    } else {
        (k, ck)
    };
    if c == 'e' || c == 'E' {
        let j = k2 + 1;
        if j >= n {
            return (j, error_style_value());
        }
        let cj = char_at(t, j);
        let j2 = if cj == '-' || cj == '+' { j + 1 } else { j };
        if j2 >= n || !is_ascii_digit(char_at(t, j2)) {
            return (j2, error_style_value());
        }
        proof {
            lemma_digits_end_bounds(t@, j2 as int);
        }
        let k3 = digits_end_exec(t, j2);
        let c3 = if k3 < n { char_at(t, k3) } else { char_at(t, k3 - 1) };
        number_end_exec(k3, c3)
    } else {
        number_end_exec(k2, c)
    }
}

fn number_end_exec(k: usize, c: char) -> (r: (usize, RichTextStyle))
    ensures
        r.0 == k,
        r.1 == if unicode_alphanumeric(c) || c == '_' { error_style() } else { number_style() },
{
    if is_alphanumeric(c) || c == '_' {
        (k, error_style_value())
    } else {
        (k, number_style_value())
    }
}

/// See [`digits_end`].
fn digits_end_exec(t: &[char], j: usize) -> (r: usize)
    requires
        j <= t@.len(),
    ensures
        r == digits_end(t@, j as int),
{
    let mut k = j;
    while k < t.len() && is_ascii_digit(char_at(t, k))
        invariant
            j <= k <= t@.len(),
            digits_end(t@, j as int) == digits_end(t@, k as int),
        decreases t.len() - k,
    {
        k += 1;
    }
    k
}

/// One step of the JSON scan from `prev`, where the previous token
/// ended: the pieces of the white space and the next token are added, and
/// the position after the token is returned; `None` at the end of the
/// text.  See [`json_from`].
#[verifier::rlimit(80)]
fn json_step(t: &[char], prev: usize, segs: &mut Vec<Segment>) -> (r: Option<usize>)
    requires
        prev <= t@.len(),
        segs_ordered(segs_view(old(segs)@), t@.len() as int),
        segs_before(segs_view(old(segs)@), prev as int),
    ensures
        segs_ordered(segs_view(final(segs)@), t@.len() as int),
        match r {
            Some(e) => prev < e <= t@.len()
                && segs_view(final(segs)@) + json_from(t@, e as int) == segs_view(old(segs)@) + json_from(t@, prev as int)
                && segs_before(segs_view(final(segs)@), e as int),
            None => segs_view(final(segs)@) == segs_view(old(segs)@) + json_from(t@, prev as int),
        },
{
    let n = t.len();
        let ghost before = segs_view(segs@);
        let ghost rest = json_from(t@, prev as int);
        let i = skipws(t, prev);
        if i > prev {
            proof {
                lemma_push_ordered(before, (default_style(), prev as int, i as int), n as int, prev as int);
            }
            push_seg(segs, default_style_value(), prev, i);
        }
        assert(segs_view(segs@) =~= before + plain(prev as int, i as int));
        let ghost b1 = segs_view(segs@);
        let null_kw = to_chars("null");
        let true_kw = to_chars("true");
        let false_kw = to_chars("false");
        proof {
            reveal_strlit("null");
            reveal_strlit("true");
            reveal_strlit("false");
        }
        if keyword_at_exec(t, i, null_kw.as_slice()) {
            proof {
                lemma_push_ordered(b1, (keyword_style(), i as int, i + 4), n as int, i as int);
            }
            push_seg(segs, keyword_style_value(), i, i + 4);
            assert(segs_view(segs@) + json_from(t@, i + 4) =~= before + rest);
            return Some(i + 4);
        } else if keyword_at_exec(t, i, true_kw.as_slice()) {
            proof {
                lemma_push_ordered(b1, (keyword_style(), i as int, i + 4), n as int, i as int);
            }
            push_seg(segs, keyword_style_value(), i, i + 4);
            assert(segs_view(segs@) + json_from(t@, i + 4) =~= before + rest);
            return Some(i + 4);
        } else if keyword_at_exec(t, i, false_kw.as_slice()) {
            proof {
                lemma_push_ordered(b1, (keyword_style(), i as int, i + 5), n as int, i as int);
            }
            push_seg(segs, keyword_style_value(), i, i + 5);
            assert(segs_view(segs@) + json_from(t@, i + 5) =~= before + rest);
            return Some(i + 5);
        } else if i < n {
            let c = char_at(t, i);
            if c == '"' {
                let e = colorize_string(t, i, segs);
                assert(segs_view(segs@) + json_from(t@, e as int) =~= before + rest);
                return Some(e);
            } else if c == '{' || c == '}' || c == '[' || c == ']' || c == ',' || c == ':' {
                proof {
                    lemma_push_ordered(b1, (symbol_style(), i as int, i + 1), n as int, i as int);
                }
                push_seg(segs, symbol_style_value(), i, i + 1);
                assert(segs_view(segs@) + json_from(t@, i + 1) =~= before + rest);
                return Some(i + 1);
            } else if is_ascii_digit(c) || c == '-' {
                let e = colorize_number(t, i, segs);
                assert(segs_view(segs@) + json_from(t@, e as int) =~= before + rest);
                return Some(e);
            } else {
                proof {
                    lemma_trim_point_stop(t@, prev as int);
                    lemma_find_ok_bounds(t@, i as int);
                }
                let ok = find_ok_json_char(t, i);
                if ok > i {
                    proof {
                        lemma_push_ordered(b1, (error_style(), i as int, ok as int), n as int, i as int);
                    }
                    push_seg(segs, error_style_value(), i, ok);
                }
                assert(segs_view(segs@) + json_from(t@, ok as int) =~= before + rest);
                return Some(ok);
            }
        } else {
            assert(segs_view(segs@) =~= before + rest);
            return None;
        }
}

/// The pieces of the JSON text `t`; see [`json_segments`].
pub fn json_pieces(t: &[char]) -> (r: Vec<Segment>)
    ensures
        segs_view(r@) == json_segments(t@),
        segs_ordered(segs_view(r@), t@.len() as int),
{
    let n = t.len();
    let mut segs: Vec<Segment> = Vec::new();
    let ghost target = json_segments(t@);
    let mut prev: usize = 0;
    assert(segs_view(segs@) + json_from(t@, 0) =~= target);
    loop
        invariant
            n == t@.len(),
            prev <= n,
            segs_view(segs@) + json_from(t@, prev as int) == target,
            target == json_segments(t@),
            segs_ordered(segs_view(segs@), n as int),
            segs_before(segs_view(segs@), prev as int),
        decreases n - prev,
    {
        let ghost before = segs_view(segs@);
        match json_step(t, prev, &mut segs) {
            Some(e) => {
                prev = e;
            },
            None => {
                assert(segs_view(segs@) == before + json_from(t@, prev as int));
                assert(segs_view(segs@) == target);
                return segs;
            },
        }
    }
}

/// Appends the pieces `segs` of `t`, each in its style; see
/// [`apply_segs`].
pub fn append_segments(rich_text: &mut RichText, t: &[char], widths: &[i32], segs: &[Segment])
    requires
        widths@.len() == t@.len(),
        valid_widths(widths@),
        segs_ordered(segs_view(segs@), t@.len() as int),
        room_for(old(rich_text).lines_v(), t@.len()),
    ensures
        (final(rich_text).lines_v(), final(rich_text).width as nat)
            == apply_segs(old(rich_text).lines_v(), old(rich_text).width as nat, t@, widths@, segs_view(segs@)),
{
    let ghost lw0 = last_line_width(rich_text.lines_v());
    let ghost sv = segs_view(segs@);
    let mut k: usize = 0;
    let mut pos: usize = 0;
    while k < segs.len()
        invariant
            widths@.len() == t@.len(),
            valid_widths(widths@),
            sv == segs_view(segs@),
            segs_ordered(sv, t@.len() as int),
            k <= sv.len(),
            pos <= t@.len(),
            lw0 + 2 * t@.len() <= usize::MAX,
            k < sv.len() ==> pos <= sv[k as int].1,
            last_line_width(rich_text.lines_v()) <= lw0 + 2 * pos,
            (rich_text.lines_v(), rich_text.width as nat)
                == apply_segs(old(rich_text).lines_v(), old(rich_text).width as nat, t@, widths@, sv.take(k as int)),
        decreases segs.len() - k,
    {
        let s = segs[k];
        assert(sv[k as int] == s@);
        let piece = vstd::slice::slice_subrange(t, s.start, s.end);
        let wpiece = vstd::slice::slice_subrange(widths, s.start, s.end);
        proof {
            assert forall|i: int| 0 <= i < wpiece@.len() implies -1 <= #[trigger] wpiece@[i] <= 2 by {
                assert(wpiece@[i] == widths@[s.start + i]);
            }
            assert(sv.take(k + 1).drop_last() =~= sv.take(k as int));
            assert(sv.take(k + 1).last() == s@);
        }
        rich_text.append_chars(&s.style, piece, wpiece);
        pos = s.end;
        proof {
            if k + 1 < sv.len() {
                assert(sv[k as int].2 <= sv[k + 1].1);
            }
        }
        k += 1;
    }
    assert(sv.take(k as int) =~= sv);
}

/// Appends `json` with its parts coloured: keywords, strings and their
/// escapes, numbers and structural characters in their styles, white
/// space in the default style and anything malformed in the error style.
/// See [`json_segments`].
pub fn colorize_json(json: &str, widths: &[i32], rich_text: &mut RichText)
    requires
        widths@.len() == json@.len(),
        valid_widths(widths@),
        room_for(old(rich_text).lines_v(), json@.len()),
    ensures
        (final(rich_text).lines_v(), final(rich_text).width as nat)
            == apply_segs(old(rich_text).lines_v(), old(rich_text).width as nat, json@, widths@, json_segments(json@)),
{
    let t = to_chars(json);
    let segs = json_pieces(t.as_slice());
    append_segments(rich_text, t.as_slice(), widths, segs.as_slice());
}

} // verus!

verus! {

/// Adds the piece `a..b` in `style` after the others, inside `0..n`.
pub(crate) fn add_seg(segs: &mut Vec<Segment>, style: RichTextStyle, a: usize, b: usize, n: usize)
    requires
        segs_ordered(segs_view(old(segs)@), n as int),
        segs_before(segs_view(old(segs)@), a as int),
        a <= b <= n,
    ensures
        segs_view(final(segs)@) == segs_view(old(segs)@).push((style, a as int, b as int)),
        segs_ordered(segs_view(final(segs)@), n as int),
        segs_before(segs_view(final(segs)@), b as int),
{
    proof {
        lemma_push_ordered(segs_view(segs@), (style, a as int, b as int), n as int, a as int);
    }
    push_seg(segs, style, a, b);
}

/// Pieces that end at or before `p` end at or before any later position.
pub proof fn lemma_before_mono(s: Seq<(RichTextStyle, int, int)>, p: int, q: int)
    requires
        segs_before(s, p),
        p <= q,
    ensures
        segs_before(s, q),
{
}

} // verus!
