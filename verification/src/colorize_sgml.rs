use vstd::prelude::*;
use crate::text::{
    unicode_alphanumeric, unicode_whitespace, spec_is_ascii_digit, spec_is_ascii_hexdigit, starts_with,
    eq_ignore_ascii_case,
};
use crate::wrap::{trim_point, lemma_trim_point_bounds};
use crate::rich_text::{RichTextStyle, default_style};
use crate::colorize::{plain, pieces_end};
use crate::styles::{
    error_style, symbol_style, keyword_style, string_style, comment_style, doctype_style, tag_style,
    attr_style,
};

verus! {

/// The first `<` or `&` from `j` on, or the end.
pub open spec fn sgml_start(t: Seq<char>, j: int) -> int
    decreases t.len() - j,
{
    if j < 0 || j >= t.len() {
        t.len() as int
    } else if t[j] == '<' || t[j] == '&' {
        j
    } else {
        sgml_start(t, j + 1)
    }
}

/// Characters of tag and attribute names.
pub open spec fn name_char(c: char) -> bool {
    unicode_alphanumeric(c) || c == '_' || c == '-' || c == ':'
}

/// End of the name from `j` on: the first character that is not a letter,
/// digit, `_`, `-` or `:`, or the end.
pub open spec fn word_end(t: Seq<char>, j: int) -> int
    decreases t.len() - j,
{
    if j < 0 || j >= t.len() || !name_char(t[j]) {
        if j < 0 { t.len() as int } else if j >= t.len() { t.len() as int } else { j }
    } else {
        word_end(t, j + 1)
    }
}

/// Characters that start an attribute name or an unquoted value.
pub open spec fn attr_start_char(c: char) -> bool {
    unicode_alphanumeric(c) || c == '_' || c == '-'
}

/// End of an unquoted attribute value: the first white space, `>`, `<`,
/// `"` or `'`, or the end.
pub open spec fn plain_value_end(t: Seq<char>, j: int) -> int
    decreases t.len() - j,
{
    if j < 0 || j >= t.len() {
        t.len() as int
    } else if unicode_whitespace(t[j]) || t[j] == '>' || t[j] == '<' || t[j] == '"' || t[j] == '\'' {
        j
    } else {
        plain_value_end(t, j + 1)
    }
}

/// The end of markup whose `<` was already seen, `depth` angle brackets
/// being open at `k`: just after the `>` that closes the first one; `None`
/// where the text ends first.
pub open spec fn nested_end(t: Seq<char>, k: int, depth: nat) -> Option<int>
    decreases t.len() - k,
{
    if k < 0 || k >= t.len() {
        None
    } else if t[k] == '>' {
        if depth <= 1 { Some(k + 1) } else { nested_end(t, k + 1, (depth - 1) as nat) }
    } else if t[k] == '<' {
        nested_end(t, k + 1, depth + 1)
    } else {
        nested_end(t, k + 1, depth)
    }
}

/// The first place from `j` on where `pat` occurs.
pub open spec fn find_str(t: Seq<char>, j: int, pat: Seq<char>) -> Option<int>
    decreases t.len() - j,
{
    if j < 0 || j >= t.len() || j + pat.len() > t.len() {
        None
    } else if t.subrange(j, j + pat.len()) == pat {
        Some(j)
    } else {
        find_str(t, j + 1, pat)
    }
}

/// End of the run of characters from `j` on where `p` holds; `None` where
/// the run reaches the end of the text.
pub open spec fn run_end_hex(t: Seq<char>, j: int) -> Option<int>
    decreases t.len() - j,
{
    if j < 0 || j >= t.len() {
        None
    } else if !spec_is_ascii_hexdigit(t[j]) {
        Some(j)
    } else {
        run_end_hex(t, j + 1)
    }
}

pub open spec fn run_end_digit(t: Seq<char>, j: int) -> Option<int>
    decreases t.len() - j,
{
    if j < 0 || j >= t.len() {
        None
    } else if !spec_is_ascii_digit(t[j]) {
        Some(j)
    } else {
        run_end_digit(t, j + 1)
    }
}

pub open spec fn run_end_name(t: Seq<char>, j: int) -> Option<int>
    decreases t.len() - j,
{
    if j < 0 || j >= t.len() {
        None
    } else if !(unicode_alphanumeric(t[j]) || t[j] == '_') {
        Some(j)
    } else {
        run_end_name(t, j + 1)
    }
}

/// The run of name characters, digits or hexadecimal digits of an entity
/// reference must end in `;`.
pub open spec fn entity_close(t: Seq<char>, k: Option<int>) -> Option<int> {
    match k {
        Some(k) => if 0 <= k < t.len() && t[k] == ';' { Some(k + 1) } else { None },
        None => None,
    }
}

/// The end of the entity reference at `j` (`&name;`, `&#digits;` or
/// `&#xhex;`), or `None` where there is none.
pub open spec fn entity_ref(t: Seq<char>, j: int) -> Option<int> {
    if j < 0 || j >= t.len() || t[j] != '&' || j + 1 >= t.len() {
        None
    } else {
        let c = t[j + 1];
        if c == '#' {
            let i2 = j + 2;
            if i2 >= t.len() {
                None
            } else if t[i2] == 'x' || t[i2] == 'X' {
                let i3 = i2 + 1;
                if i3 >= t.len() || !spec_is_ascii_hexdigit(t[i3]) {
                    None
                } else {
                    entity_close(t, run_end_hex(t, i3))
                }
            } else if spec_is_ascii_digit(t[i2]) {
                entity_close(t, run_end_digit(t, i2))
            } else {
                None
            }
        } else if unicode_alphanumeric(c) || c == '_' {
            entity_close(t, run_end_name(t, j + 1))
        } else {
            None
        }
    }
}

/// The rest of a quoted attribute value, from `index` on, whose current
/// piece starts at `prev`: the text up to an entity reference or the
/// closing quote is a string piece, entity references are keyword
/// pieces, and the closing quote ends the last string piece.  Where the
/// quote is missing or an `&` starts no reference, the rest of the text
/// is an error piece.
pub open spec fn attr_value_scan(t: Seq<char>, prev: int, index: int, quote: char) -> (int, Seq<(RichTextStyle, int, int)>)
    decreases t.len() - index,
{
    let k = quote_or_amp(t, index, quote);
    if index < 0 || index > t.len() || k >= t.len() {
        (t.len() as int, seq![(error_style(), index, t.len() as int)])
    } else {
        let s1 = if prev < k { seq![(string_style(), prev, k)] } else { seq![] };
        if t[k] == '&' {
            match entity_ref(t, k) {
                None => (t.len() as int, s1.push((error_style(), k, t.len() as int))),
                Some(e) => {
                    proof {
                        lemma_entity_ref_bounds(t, k);
                        lemma_quote_or_amp_bounds(t, index, quote);
                    }
                    let (r, s) = attr_value_scan(t, e, e, quote);
                    (r, s1.push((keyword_style(), k, e)) + s)
                },
            }
        } else {
            (k + 1, s1.push((string_style(), k, k + 1)))
        }
    }
}

/// The first `&` or `quote` from `j` on, or the end.
pub open spec fn quote_or_amp(t: Seq<char>, j: int, quote: char) -> int
    decreases t.len() - j,
{
    if j < 0 || j >= t.len() {
        t.len() as int
    } else if t[j] == '&' || t[j] == quote {
        j
    } else {
        quote_or_amp(t, j + 1, quote)
    }
}

pub proof fn lemma_quote_or_amp_bounds(t: Seq<char>, j: int, quote: char)
    requires
        0 <= j <= t.len(),
    ensures
        j <= quote_or_amp(t, j, quote) <= t.len(),
    decreases t.len() - j,
{
    if j < t.len() && !(t[j] == '&' || t[j] == quote) {
        lemma_quote_or_amp_bounds(t, j + 1, quote);
    }
}

pub proof fn lemma_run_bounds(t: Seq<char>, j: int)
    requires
        0 <= j <= t.len(),
    ensures
        run_end_hex(t, j) matches Some(k) ==> j <= k < t.len(),
        run_end_digit(t, j) matches Some(k) ==> j <= k < t.len(),
        run_end_name(t, j) matches Some(k) ==> j <= k < t.len(),
    decreases t.len() - j,
{
    if j < t.len() {
        lemma_run_bounds(t, j + 1);
    }
}

pub proof fn lemma_entity_ref_bounds(t: Seq<char>, j: int)
    requires
        0 <= j <= t.len(),
    ensures
        entity_ref(t, j) matches Some(e) ==> j < e <= t.len(),
{
    if j + 2 <= t.len() {
        lemma_run_bounds(t, j + 1);
        lemma_run_bounds(t, j + 2);
        if j + 3 <= t.len() {
            lemma_run_bounds(t, j + 3);
        }
    }
}

/// A quoted attribute value at `index`: where it ends and its pieces; no
/// pieces and the end of the text where `index` holds no `quote`.
pub open spec fn attr_value(t: Seq<char>, index: int, quote: char) -> (int, Seq<(RichTextStyle, int, int)>) {
    if 0 <= index < t.len() && t[index] == quote {
        attr_value_scan(t, index, index + 1, quote)
    } else {
        (t.len() as int, seq![])
    }
}

pub proof fn lemma_attr_value_scan_bounds(t: Seq<char>, prev: int, index: int, quote: char)
    requires
        0 <= index <= t.len(),
    ensures
        index <= attr_value_scan(t, prev, index, quote).0 <= t.len(),
    decreases t.len() - index,
{
    lemma_quote_or_amp_bounds(t, index, quote);
    let k = quote_or_amp(t, index, quote);
    if k < t.len() && t[k] == '&' {
        lemma_entity_ref_bounds(t, k);
        if let Some(e) = entity_ref(t, k) {
            lemma_attr_value_scan_bounds(t, e, e, quote);
        }
    }
}

/// The value after `=` at `index` (white space already skipped): an
/// unquoted value, a quoted one, or nothing (the attributes end).
#[verifier::opaque]
pub open spec fn attr_value_part(t: Seq<char>, index: int) -> Option<(int, Seq<(RichTextStyle, int, int)>)> {
    if 0 <= index < t.len() && attr_start_char(t[index]) {
        let e = plain_value_end(t, index);
        Some((e, seq![(string_style(), index, e)]))
    } else if 0 <= index < t.len() && t[index] == '"' {
        Some(attr_value(t, index, '"'))
    } else if 0 <= index < t.len() && t[index] == '\'' {
        Some(attr_value(t, index, '\''))
    } else {
        None
    }
}

/// The attributes from `index` on, where the previous piece ended: white
/// space in the default style, names in the attribute style, `=` as a
/// symbol and values as strings.  The result is where they end and their
/// pieces.
pub open spec fn attributes(t: Seq<char>, index: int) -> (int, Seq<(RichTextStyle, int, int)>)
    decreases t.len() - index,
{
    if index < 0 || index > t.len() {
        (index, seq![])
    } else {
        let i1 = trim_point(t, index);
        let s1 = plain(index, i1);
        if !(i1 < t.len() && attr_start_char(t[i1])) {
            (i1, s1)
        } else {
            let w = word_end(t, i1);
            let i2 = trim_point(t, w);
            proof {
                lemma_trim_point_bounds(t, index);
                lemma_word_end_bounds(t, i1);
                lemma_trim_point_bounds(t, w);
            }
            let s2 = s1.push((attr_style(), i1, w)) + plain(w, i2);
            if i2 < t.len() && t[i2] == '=' {
                let i3 = trim_point(t, i2 + 1);
                proof {
                    lemma_trim_point_bounds(t, i2 + 1);
                }
                let s3 = s2.push((symbol_style(), i2, i2 + 1)) + plain(i2 + 1, i3);
                match attr_value_part(t, i3) {
                    None => (i3, s3),
                    Some((e, sv)) => {
                        proof {
                            lemma_attr_value_part_bounds(t, i3);
                        }
                        let (r, s) = attributes(t, e);
                        (r, s3 + sv + s)
                    },
                }
            } else {
                let (r, s) = attributes(t, i2);
                (r, s2 + s)
            }
        }
    }
}

pub proof fn lemma_word_end_bounds(t: Seq<char>, j: int)
    requires
        0 <= j <= t.len(),
    ensures
        j <= word_end(t, j) <= t.len(),
        j < t.len() && name_char(t[j]) ==> word_end(t, j) > j,
    decreases t.len() - j,
{
    if j < t.len() && name_char(t[j]) {
        lemma_word_end_bounds(t, j + 1);
    }
}

pub proof fn lemma_plain_value_end_bounds(t: Seq<char>, j: int)
    requires
        0 <= j <= t.len(),
    ensures
        j <= plain_value_end(t, j) <= t.len(),
    decreases t.len() - j,
{
    if j < t.len() && !(unicode_whitespace(t[j]) || t[j] == '>' || t[j] == '<' || t[j] == '"' || t[j] == '\'') {
        lemma_plain_value_end_bounds(t, j + 1);
    }
}

pub proof fn lemma_attr_value_part_bounds(t: Seq<char>, index: int)
    requires
        0 <= index <= t.len(),
    ensures
        attr_value_part(t, index) matches Some((e, _)) ==> index <= e <= t.len(),
{
    reveal(attr_value_part);
    if index < t.len() {
        lemma_plain_value_end_bounds(t, index);
        if t[index] == '"' {
            lemma_attr_value_scan_bounds(t, index, index + 1, '"');
        }
        if t[index] == '\'' {
            lemma_attr_value_scan_bounds(t, index, index + 1, '\'');
        }
    }
}

pub proof fn lemma_attributes_bounds(t: Seq<char>, index: int)
    requires
        0 <= index <= t.len(),
    ensures
        index <= attributes(t, index).0 <= t.len(),
    decreases t.len() - index,
{
    lemma_trim_point_bounds(t, index);
    let i1 = trim_point(t, index);
    if i1 < t.len() && attr_start_char(t[i1]) {
        lemma_word_end_bounds(t, i1);
        let w = word_end(t, i1);
        lemma_trim_point_bounds(t, w);
        let i2 = trim_point(t, w);
        if i2 < t.len() && t[i2] == '=' {
            lemma_trim_point_bounds(t, i2 + 1);
            let i3 = trim_point(t, i2 + 1);
            lemma_attr_value_part_bounds(t, i3);
            if let Some((e, _)) = attr_value_part(t, i3) {
                lemma_attributes_bounds(t, e);
            }
        } else {
            lemma_attributes_bounds(t, i2);
        }
    }
}

/// How a tag may be closed: a start tag by `>` or `/>`, a processing
/// instruction by `?>`, an end tag by `>`.
pub enum TagKind {
    Start,
    Instruction,
    End,
}

/// The end of a tag at `index`, where the previous piece ends: its closing
/// delimiter is a symbol; another character is an error; nothing at the
/// end of the text.
pub open spec fn tag_close(t: Seq<char>, index: int, kind: TagKind) -> (int, Seq<(RichTextStyle, int, int)>) {
    if 0 <= index && matches!(kind, TagKind::Instruction) && starts_with(t.skip(index), "?>"@) {
        (index + 2, seq![(symbol_style(), index, index + 2)])
    } else if 0 <= index < t.len() && !matches!(kind, TagKind::Instruction) && t[index] == '>' {
        (index + 1, seq![(symbol_style(), index, index + 1)])
    } else if 0 <= index && matches!(kind, TagKind::Start) && starts_with(t.skip(index), "/>"@) {
        (index + 2, seq![(symbol_style(), index, index + 2)])
    } else if 0 <= index < t.len() {
        (index + 1, seq![(error_style(), index, index + 1)])
    } else {
        (index, seq![])
    }
}

/// The markup at `i` (a `<` or `&`): where it ends and its pieces; `None`
/// as the end where the text ends inside it, and then the pieces go to the
/// end of the text.
pub open spec fn markup(t: Seq<char>, i: int) -> (Option<int>, Seq<(RichTextStyle, int, int)>) {
    let n = t.len() as int;
    let rest = t.skip(i);
    if starts_with(rest, "<![CDATA["@) {
        let j = i + 9;
        match find_str(t, j, "]]>"@) {
            None => (None, seq![(error_style(), i, n)]),
            Some(e) => (Some(e + 3), seq![(comment_style(), i, j), (default_style(), j, e), (comment_style(), e, e + 3)]),
        }
    } else if starts_with(rest, "<!--"@) {
        match find_str(t, i + 4, "-->"@) {
            None => (None, seq![(comment_style(), i, n)]),
            Some(e) => (Some(e + 3), seq![(comment_style(), i, e + 3)]),
        }
    } else if rest.len() > 9 && eq_ignore_ascii_case(rest.take(9), "<!DOCTYPE"@) && !attr_start_char(rest[9]) {
        match nested_end(t, i + 9, 1) {
            None => (None, seq![(error_style(), i, n)]),
            Some(e) => (Some(e), seq![(doctype_style(), i, e)]),
        }
    } else if starts_with(rest, "<!"@) {
        match nested_end(t, i + 2, 1) {
            None => (None, seq![(error_style(), i, n)]),
            Some(e) => (Some(e), seq![(error_style(), i, e)]),
        }
    } else if starts_with(rest, "<?"@) {
        let w = word_end(t, i + 2);
        let (a, sa) = attributes(t, w);
        let (e, sc) = tag_close(t, a, TagKind::Instruction);
        (Some(e), seq![(symbol_style(), i, i + 2), (tag_style(), i + 2, w)] + sa + sc)
    } else if starts_with(rest, "</"@) {
        let w = word_end(t, i + 2);
        let k = trim_point(t, w);
        let (e, sc) = tag_close(t, k, TagKind::End);
        (Some(e), seq![(symbol_style(), i, i + 2), (tag_style(), i + 2, w)] + plain(w, k) + sc)
    } else if t[i] == '<' {
        let w = word_end(t, i + 1);
        let (a, sa) = attributes(t, w);
        let (e, sc) = tag_close(t, a, TagKind::Start);
        (Some(e), seq![(symbol_style(), i, i + 1), (tag_style(), i + 1, w)] + sa + sc)
    } else {
        match entity_ref(t, i) {
            Some(e) => (Some(e), seq![(keyword_style(), i, e)]),
            None => (Some(i + 1), seq![(error_style(), i, i + 1)]),
        }
    }
}

/// The pieces of markup text from `index` on: text in the default style;
/// CDATA sections and comments in the comment style (the data of a CDATA
/// section in the default style); document type declarations; other `<!`
/// declarations as errors; tags with their names, attributes and
/// delimiters; entity references as keywords.
pub open spec fn sgml_from(t: Seq<char>, index: int) -> Seq<(RichTextStyle, int, int)>
    decreases t.len() - index,
{
    if index < 0 || index >= t.len() {
        seq![]
    } else {
        let i = sgml_start(t, index);
        let lead = plain(index, i);
        if i >= t.len() {
            lead
        } else {
            let (e, s) = markup(t, i);
            match e {
                None => lead + s,
                Some(e) => {
                    proof {
                        lemma_sgml_start_bounds(t, index);
                        lemma_markup_progress(t, i);
                    }
                    lead + s + sgml_from(t, e)
                },
            }
        }
    }
}

pub proof fn lemma_sgml_start_bounds(t: Seq<char>, j: int)
    requires
        0 <= j <= t.len(),
    ensures
        j <= sgml_start(t, j) <= t.len(),
        sgml_start(t, j) < t.len() ==> t[sgml_start(t, j)] == '<' || t[sgml_start(t, j)] == '&',
    decreases t.len() - j,
{
    if j < t.len() && !(t[j] == '<' || t[j] == '&') {
        lemma_sgml_start_bounds(t, j + 1);
    }
}

pub proof fn lemma_find_str_bounds(t: Seq<char>, j: int, pat: Seq<char>)
    requires
        0 <= j,
    ensures
        find_str(t, j, pat) matches Some(k) ==> j <= k && k + pat.len() <= t.len(),
    decreases t.len() - j,
{
    if j < t.len() && j + pat.len() <= t.len() && t.subrange(j, j + pat.len()) != pat {
        lemma_find_str_bounds(t, j + 1, pat);
    }
}

pub proof fn lemma_nested_end_bounds(t: Seq<char>, k: int, depth: nat)
    requires
        0 <= k,
    ensures
        nested_end(t, k, depth) matches Some(e) ==> k < e <= t.len(),
    decreases t.len() - k,
{
    if k < t.len() {
        if t[k] == '>' {
            if depth > 1 {
                lemma_nested_end_bounds(t, k + 1, (depth - 1) as nat);
            }
        } else if t[k] == '<' {
            lemma_nested_end_bounds(t, k + 1, depth + 1);
        } else {
            lemma_nested_end_bounds(t, k + 1, depth);
        }
    }
}

/// Markup always ends after its start, inside the text.
pub proof fn lemma_markup_progress(t: Seq<char>, i: int)
    requires
        0 <= i < t.len(),
        t[i] == '<' || t[i] == '&',
    ensures
        markup(t, i).0 matches Some(e) ==> i < e <= t.len(),
{
    reveal_strlit("<![CDATA[");
    reveal_strlit("]]>");
    reveal_strlit("<!--");
    reveal_strlit("-->");
    reveal_strlit("<!DOCTYPE");
    reveal_strlit("<!");
    reveal_strlit("<?");
    reveal_strlit("?>");
    reveal_strlit("</");
    reveal_strlit("/>");
    let rest = t.skip(i);
    lemma_find_str_bounds(t, i + 9, "]]>"@);
    lemma_find_str_bounds(t, i + 4, "-->"@);
    lemma_nested_end_bounds(t, i + 9, 1);
    lemma_nested_end_bounds(t, i + 2, 1);
    lemma_entity_ref_bounds(t, i);
    if starts_with(rest, "<?"@) || starts_with(rest, "</"@) || t[i] == '<' {
        if i + 2 <= t.len() {
            lemma_word_end_bounds(t, i + 2);
            lemma_attributes_bounds(t, word_end(t, i + 2));
            lemma_trim_point_bounds(t, word_end(t, i + 2));
        }
        lemma_word_end_bounds(t, i + 1);
        lemma_attributes_bounds(t, word_end(t, i + 1));
    }
}

/// The pieces of a markup text.
pub open spec fn sgml_segments(t: Seq<char>) -> Seq<(RichTextStyle, int, int)> {
    sgml_from(t, 0)
}

/// `pat` occurs in `t` at `k`.
pub open spec fn occurs_at(t: Seq<char>, k: int, pat: Seq<char>) -> bool {
    0 <= k && k + pat.len() <= t.len() && t.subrange(k, k + pat.len()) == pat
}

/// `-->` occurs in `t` at `k`.
pub open spec fn closes_comment_at(t: Seq<char>, k: int) -> bool {
    occurs_at(t, k, seq!['-', '-', '>'])
}

/// Where `pat` first occurs from `j` on: at `e`, or nowhere where `e` is
/// the length.
proof fn lemma_find_str_first(t: Seq<char>, j: int, pat: Seq<char>, e: int)
    requires
        0 <= j <= e <= t.len(),
        pat.len() > 0,
        forall|k: int| j <= k < e ==> !#[trigger] occurs_at(t, k, pat),
        e < t.len() ==> occurs_at(t, e, pat),
    ensures
        find_str(t, j, pat) == (if e < t.len() { Some(e) } else { None::<int> }),
    decreases e - j,
{
    if j < e && j + pat.len() <= t.len() {
        assert(!occurs_at(t, j, pat));
        lemma_find_str_first(t, j + 1, pat, e);
    }
}

/// A comment `<!-- ... -->` where markup starts is one piece in the
/// comment style: from `<!--` to just after the first `-->` after it, or
/// to the end of the text where none follows.
pub proof fn sgml_comment_is_one_piece(t: Seq<char>, i: int, e: int)
    requires
        0 <= i,
        i + 4 <= t.len(),
        t.subrange(i, i + 4) == seq!['<', '!', '-', '-'],
        i + 4 <= e <= t.len(),
        forall|k: int| i + 4 <= k < e ==> !#[trigger] closes_comment_at(t, k),
        e < t.len() ==> closes_comment_at(t, e),
    ensures
        sgml_from(t, i).len() > 0,
        sgml_from(t, i)[0] == (comment_style(), i, if e < t.len() { e + 3 } else { t.len() as int }),
{
    reveal_strlit("<![CDATA[");
    reveal_strlit("<!--");
    reveal_strlit("-->");
    assert("-->"@ =~= seq!['-', '-', '>']);
    assert("<!--"@ =~= seq!['<', '!', '-', '-']);
    assert forall|k: int| i + 4 <= k < e implies !#[trigger] occurs_at(t, k, "-->"@) by {
        assert(!closes_comment_at(t, k));
    }
    lemma_find_str_first(t, i + 4, "-->"@, e);
    let rest = t.skip(i);
    assert(rest.subrange(0, 4) =~= t.subrange(i, i + 4));
    assert(starts_with(rest, "<!--"@));
    assert(t.subrange(i, i + 4)[2] == '-');
    assert(!starts_with(rest, "<![CDATA["@)) by {
        if starts_with(rest, "<![CDATA["@) {
            assert(rest.subrange(0, 9)[2] == rest[2]);
        }
    }
    assert(t[i] == t.subrange(i, i + 4)[0]);
    assert(sgml_start(t, i) == i);
    lemma_markup_progress(t, i);
}

// ---------------------------------------------------------------------------
// The pieces follow one another
// ---------------------------------------------------------------------------

/// A quote that may open an attribute value stands at `k`.
pub open spec fn quote_at(t: Seq<char>, k: int) -> bool {
    0 <= k < t.len() && (t[k] == '"' || t[k] == '\'')
}

/// A piece may start at `b` after pieces that end at `a`: right there, or
/// one character on where that character is a quote.
pub open spec fn starts_after(t: Seq<char>, a: int, b: int) -> bool {
    b == a || (b == a + 1 && quote_at(t, a))
}

/// The pieces follow one another from `a`, but for a quote that may be
/// left out before a piece.
pub open spec fn follow_on_q(s: Seq<(RichTextStyle, int, int)>, a: int, t: Seq<char>) -> bool {
    &&& s.len() > 0 ==> starts_after(t, a, s[0].1)
    &&& forall|i: int, j: int| 0 <= i && j == i + 1 && j < s.len() ==> starts_after(t, (#[trigger] s[i]).2, (#[trigger] s[j]).1)
}

proof fn lemma_follow_on_q_concat(s1: Seq<(RichTextStyle, int, int)>, s2: Seq<(RichTextStyle, int, int)>, a: int, t: Seq<char>)
    requires
        follow_on_q(s1, a, t),
        follow_on_q(s2, pieces_end(s1, a), t),
    ensures
        follow_on_q(s1 + s2, a, t),
        pieces_end(s1 + s2, a) == pieces_end(s2, pieces_end(s1, a)),
{
    let s = s1 + s2;
    assert forall|i: int, j: int| 0 <= i && j == i + 1 && j < s.len() implies starts_after(t, (#[trigger] s[i]).2, (#[trigger] s[j]).1) by {
        if j < s1.len() {
            assert(s[i] == s1[i] && s[j] == s1[j]);
        } else if i >= s1.len() {
            assert(s[i] == s2[i - s1.len()] && s[j] == s2[j - s1.len()]);
        } else {
            assert(s[i] == s1[i] && s[j] == s2[0]);
        }
    }
    if s1.len() == 0 {
        assert(s =~= s2);
    } else {
        assert(s[0] == s1[0]);
    }
}

proof fn lemma_follow_on_q_push(s: Seq<(RichTextStyle, int, int)>, p: (RichTextStyle, int, int), a: int, t: Seq<char>)
    requires
        follow_on_q(s, a, t),
        p.1 == pieces_end(s, a),
    ensures
        follow_on_q(s.push(p), a, t),
        pieces_end(s.push(p), a) == p.2,
{
    lemma_follow_on_q_concat(s, seq![p], a, t);
    assert(s.push(p) =~= s + seq![p]);
}

proof fn lemma_attr_value_scan_follows(t: Seq<char>, prev: int, index: int, quote: char)
    requires
        0 <= prev <= index <= t.len(),
        prev == index || (prev + 1 == index && quote_at(t, prev)),
    ensures
        follow_on_q(attr_value_scan(t, prev, index, quote).1, prev, t),
        pieces_end(attr_value_scan(t, prev, index, quote).1, prev) == attr_value_scan(t, prev, index, quote).0,
    decreases t.len() - index,
{
    lemma_quote_or_amp_bounds(t, index, quote);
    let k = quote_or_amp(t, index, quote);
    if k < t.len() {
        let s1 = if prev < k { seq![(string_style(), prev, k)] } else { seq![] };
        assert(follow_on_q(s1, prev, t) && pieces_end(s1, prev) == k);
        if t[k] == '&' {
            lemma_entity_ref_bounds(t, k);
            match entity_ref(t, k) {
                None => {
                    lemma_follow_on_q_push(s1, (error_style(), k, t.len() as int), prev, t);
                },
                Some(e) => {
                    lemma_attr_value_scan_follows(t, e, e, quote);
                    lemma_follow_on_q_push(s1, (keyword_style(), k, e), prev, t);
                    lemma_follow_on_q_concat(s1.push((keyword_style(), k, e)), attr_value_scan(t, e, e, quote).1, prev, t);
                },
            }
        } else {
            lemma_follow_on_q_push(s1, (string_style(), k, k + 1), prev, t);
        }
    }
}

proof fn lemma_attr_value_part_follows(t: Seq<char>, index: int)
    requires
        0 <= index <= t.len(),
    ensures
        attr_value_part(t, index) matches Some((e, sv)) ==> follow_on_q(sv, index, t) && pieces_end(sv, index) == e,
{
    reveal(attr_value_part);
    if index < t.len() {
        if t[index] == '"' {
            lemma_attr_value_scan_follows(t, index, index + 1, '"');
        }
        if t[index] == '\'' {
            lemma_attr_value_scan_follows(t, index, index + 1, '\'');
        }
    }
}

proof fn lemma_plain_follows(a: int, b: int, t: Seq<char>)
    requires
        a <= b,
    ensures
        follow_on_q(plain(a, b), a, t),
        pieces_end(plain(a, b), a) == b,
{
}

proof fn lemma_attributes_follows(t: Seq<char>, index: int)
    requires
        0 <= index <= t.len(),
    ensures
        follow_on_q(attributes(t, index).1, index, t),
        pieces_end(attributes(t, index).1, index) == attributes(t, index).0,
    decreases t.len() - index,
{
    lemma_trim_point_bounds(t, index);
    let i1 = trim_point(t, index);
    let s1 = plain(index, i1);
    lemma_plain_follows(index, i1, t);
    if i1 < t.len() && attr_start_char(t[i1]) {
        lemma_word_end_bounds(t, i1);
        let w = word_end(t, i1);
        lemma_trim_point_bounds(t, w);
        let i2 = trim_point(t, w);
        lemma_follow_on_q_push(s1, (attr_style(), i1, w), index, t);
        lemma_plain_follows(w, i2, t);
        let s2 = s1.push((attr_style(), i1, w)) + plain(w, i2);
        lemma_follow_on_q_concat(s1.push((attr_style(), i1, w)), plain(w, i2), index, t);
        if i2 < t.len() && t[i2] == '=' {
            lemma_trim_point_bounds(t, i2 + 1);
            let i3 = trim_point(t, i2 + 1);
            lemma_follow_on_q_push(s2, (symbol_style(), i2, i2 + 1), index, t);
            lemma_plain_follows(i2 + 1, i3, t);
            let s3 = s2.push((symbol_style(), i2, i2 + 1)) + plain(i2 + 1, i3);
            lemma_follow_on_q_concat(s2.push((symbol_style(), i2, i2 + 1)), plain(i2 + 1, i3), index, t);
            lemma_attr_value_part_follows(t, i3);
            lemma_attr_value_part_bounds(t, i3);
            match attr_value_part(t, i3) {
                None => {},
                Some((e, sv)) => {
                    lemma_attributes_follows(t, e);
                    lemma_follow_on_q_concat(s3, sv, index, t);
                    lemma_follow_on_q_concat(s3 + sv, attributes(t, e).1, index, t);
                },
            }
        } else {
            lemma_attributes_follows(t, i2);
            lemma_follow_on_q_concat(s2, attributes(t, i2).1, index, t);
        }
    }
}

proof fn lemma_tag_close_follows(t: Seq<char>, index: int, kind: TagKind)
    ensures
        follow_on_q(tag_close(t, index, kind).1, index, t),
        pieces_end(tag_close(t, index, kind).1, index) == tag_close(t, index, kind).0,
{
}

/// The pieces of a tag from `i`: a delimiter from `i` to `n`, the name to
/// `w`, then `rest` from `w` on.
proof fn lemma_tag_follows(t: Seq<char>, i: int, n: int, w: int, rest: Seq<(RichTextStyle, int, int)>)
    requires
        i <= n <= w,
        follow_on_q(rest, w, t),
    ensures
        follow_on_q(seq![(symbol_style(), i, n), (tag_style(), n, w)] + rest, i, t),
        pieces_end(seq![(symbol_style(), i, n), (tag_style(), n, w)] + rest, i) == pieces_end(rest, w),
{
    let head = seq![(symbol_style(), i, n), (tag_style(), n, w)];
    assert(follow_on_q(head, i, t) && pieces_end(head, i) == w);
    lemma_follow_on_q_concat(head, rest, i, t);
}

proof fn lemma_markup_follows(t: Seq<char>, i: int)
    requires
        0 <= i < t.len(),
        t[i] == '<' || t[i] == '&',
    ensures
        follow_on_q(markup(t, i).1, i, t),
        markup(t, i).0 matches Some(e) ==> pieces_end(markup(t, i).1, i) == e,
{
    reveal_strlit("<![CDATA[");
    reveal_strlit("]]>");
    reveal_strlit("<!--");
    reveal_strlit("-->");
    reveal_strlit("<!DOCTYPE");
    reveal_strlit("<!");
    reveal_strlit("<?");
    reveal_strlit("</");
    let rest = t.skip(i);
    lemma_find_str_bounds(t, i + 9, "]]>"@);
    lemma_find_str_bounds(t, i + 4, "-->"@);
    lemma_nested_end_bounds(t, i + 9, 1);
    lemma_nested_end_bounds(t, i + 2, 1);
    lemma_entity_ref_bounds(t, i);
    if starts_with(rest, "<![CDATA["@) || starts_with(rest, "<!--"@)
        || (rest.len() > 9 && eq_ignore_ascii_case(rest.take(9), "<!DOCTYPE"@) && !attr_start_char(rest[9]))
        || starts_with(rest, "<!"@) {
    } else if starts_with(rest, "<?"@) || starts_with(rest, "</"@) {
        lemma_word_end_bounds(t, i + 2);
        let w = word_end(t, i + 2);
        if starts_with(rest, "<?"@) {
            lemma_attributes_follows(t, w);
            lemma_attributes_bounds(t, w);
            let (a, sa) = attributes(t, w);
            lemma_tag_close_follows(t, a, TagKind::Instruction);
            lemma_follow_on_q_concat(sa, tag_close(t, a, TagKind::Instruction).1, w, t);
            lemma_tag_follows(t, i, i + 2, w, sa + tag_close(t, a, TagKind::Instruction).1);
            assert(markup(t, i).1 =~= seq![(symbol_style(), i, i + 2), (tag_style(), i + 2, w)] + (sa + tag_close(t, a, TagKind::Instruction).1));
        } else {
            lemma_trim_point_bounds(t, w);
            let k = trim_point(t, w);
            lemma_plain_follows(w, k, t);
            lemma_tag_close_follows(t, k, TagKind::End);
            lemma_follow_on_q_concat(plain(w, k), tag_close(t, k, TagKind::End).1, w, t);
            lemma_tag_follows(t, i, i + 2, w, plain(w, k) + tag_close(t, k, TagKind::End).1);
            assert(markup(t, i).1 =~= seq![(symbol_style(), i, i + 2), (tag_style(), i + 2, w)] + (plain(w, k) + tag_close(t, k, TagKind::End).1));
        }
    } else if t[i] == '<' {
        lemma_word_end_bounds(t, i + 1);
        let w = word_end(t, i + 1);
        lemma_attributes_follows(t, w);
        lemma_attributes_bounds(t, w);
        let (a, sa) = attributes(t, w);
        lemma_tag_close_follows(t, a, TagKind::Start);
        lemma_follow_on_q_concat(sa, tag_close(t, a, TagKind::Start).1, w, t);
        lemma_tag_follows(t, i, i + 1, w, sa + tag_close(t, a, TagKind::Start).1);
        assert(markup(t, i).1 =~= seq![(symbol_style(), i, i + 1), (tag_style(), i + 1, w)] + (sa + tag_close(t, a, TagKind::Start).1));
    }
}

proof fn lemma_sgml_from_follows(t: Seq<char>, index: int)
    requires
        0 <= index <= t.len(),
    ensures
        follow_on_q(sgml_from(t, index), index, t),
    decreases t.len() - index,
{
    if index < t.len() {
        lemma_sgml_start_bounds(t, index);
        let i = sgml_start(t, index);
        let lead = plain(index, i);
        lemma_plain_follows(index, i, t);
        if i < t.len() {
            lemma_markup_follows(t, i);
            lemma_markup_progress(t, i);
            let (e, s) = markup(t, i);
            lemma_follow_on_q_concat(lead, s, index, t);
            if let Some(e) = e {
                lemma_sgml_from_follows(t, e);
                lemma_follow_on_q_concat(lead + s, sgml_from(t, e), index, t);
            }
        }
    }
}

/// Markup colouring repeats no character and leaves out none but the
/// opening quote of an attribute value that is never closed: each piece
/// starts where the one before it ends, the first at the start of the
/// text, or one character on where that character is a quote.
pub proof fn sgml_pieces_follow_on(t: Seq<char>)
    ensures
        follow_on_q(sgml_segments(t), 0, t),
{
    lemma_sgml_from_follows(t, 0);
}

} // verus!

verus! {

use crate::colorize::{Segment, segs_view, segs_ordered, segs_before, add_seg, skipws, apply_segs, append_segments, lemma_before_mono};
use crate::text::{to_chars, char_at, is_alphanumeric, is_whitespace, is_ascii_digit, is_ascii_hexdigit, starts_with_at, chars_eq_ignore_ascii_case};
use crate::char_width::valid_widths;
use crate::rich_text::{RichText, room_for, default_style_value};
use crate::styles::{
    error_style_value, symbol_style_value, keyword_style_value, string_style_value, comment_style_value,
    doctype_style_value, tag_style_value, attr_style_value,
};

/// See [`sgml_start`].
fn find_sgml_start(t: &[char], index: usize) -> (r: usize)
    requires
        index <= t@.len(),
    ensures
        r == sgml_start(t@, index as int),
{
    let mut k = index;
    while k < t.len()
        invariant
            index <= k <= t@.len(),
            sgml_start(t@, index as int) == sgml_start(t@, k as int),
        decreases t.len() - k,
    {
        let c = char_at(t, k);
        if c == '<' || c == '&' {
            return k;
        }
        k += 1;
    }
    k
}

/// See [`word_end`].
fn find_word_end(t: &[char], index: usize) -> (r: usize)
    requires
        index <= t@.len(),
    ensures
        r == word_end(t@, index as int),
{
    let mut k = index;
    while k < t.len()
        invariant
            index <= k <= t@.len(),
            word_end(t@, index as int) == word_end(t@, k as int),
        decreases t.len() - k,
    {
        let c = char_at(t, k);
        if !(is_alphanumeric(c) || c == '_' || c == '-' || c == ':') {
            return k;
        }
        k += 1;
    }
    k
}

/// See [`plain_value_end`].
fn find_plain_attr_value_end(t: &[char], index: usize) -> (r: usize)
    requires
        index <= t@.len(),
    ensures
        r == plain_value_end(t@, index as int),
{
    let mut k = index;
    while k < t.len()
        invariant
            index <= k <= t@.len(),
            plain_value_end(t@, index as int) == plain_value_end(t@, k as int),
        decreases t.len() - k,
    {
        let c = char_at(t, k);
        if is_whitespace(c) || c == '>' || c == '<' || c == '"' || c == '\'' {
            return k;
        }
        k += 1;
    }
    k
}

/// See [`nested_end`]; one angle bracket is open at `index`.
fn find_nested_angle_end(t: &[char], index: usize) -> (r: Option<usize>)
    requires
        index <= t@.len(),
        t@.len() < usize::MAX,
    ensures
        r matches Some(e) ==> nested_end(t@, index as int, 1) == Some(e as int),
        r is None ==> nested_end(t@, index as int, 1) is None,
{
    let mut nesting: usize = 1;
    let mut k = index;
    while k < t.len()
        invariant
            index <= k <= t@.len(),
            t@.len() < usize::MAX,
            1 <= nesting <= k - index + 1,
            nested_end(t@, index as int, 1) == nested_end(t@, k as int, nesting as nat),
        decreases t.len() - k,
    {
        let c = char_at(t, k);
        if c == '>' {
            if nesting <= 1 {
                return Some(k + 1);
            }
            nesting -= 1;
        } else if c == '<' {
            nesting += 1;
        }
        k += 1;
    }
    None
}

/// See [`find_str`].
fn find_str_exec(t: &[char], index: usize, pat: &[char]) -> (r: Option<usize>)
    requires
        index <= t@.len(),
    ensures
        r matches Some(e) ==> find_str(t@, index as int, pat@) == Some(e as int),
        r is None ==> find_str(t@, index as int, pat@) is None,
{
    let mut k = index;
    while k < t.len() && pat.len() <= t.len() - k
        invariant
            index <= k <= t@.len(),
            find_str(t@, index as int, pat@) == find_str(t@, k as int, pat@),
        decreases t.len() - k,
    {
        if starts_with_at(t, k, pat) {
            assert(t@.skip(k as int).subrange(0, pat@.len() as int) =~= t@.subrange(k as int, k + pat@.len()));
            return Some(k);
        }
        assert(t@.skip(k as int).subrange(0, pat@.len() as int) =~= t@.subrange(k as int, k + pat@.len()));
        k += 1;
    }
    None
}

/// An optional position and its value as an integer.
pub open spec fn same_pos(r: Option<usize>, o: Option<int>) -> bool {
    match o {
        Some(k) => r matches Some(x) && x == k,
        None => r is None,
    }
}

/// End of the run from `j` on of characters of the given class (0: hex
/// digits, 1: digits, otherwise letters, digits and `_`); `None` where it
/// reaches the end.
fn run_end(t: &[char], j: usize, class: u8) -> (r: Option<usize>)
    requires
        j <= t@.len(),
    ensures
        class == 0 ==> same_pos(r, run_end_hex(t@, j as int)),
        class == 1 ==> same_pos(r, run_end_digit(t@, j as int)),
        class >= 2 ==> same_pos(r, run_end_name(t@, j as int)),
        r matches Some(k) ==> j <= k < t@.len(),
{
    let mut k = j;
    while k < t.len()
        invariant
            j <= k <= t@.len(),
            class == 0 ==> run_end_hex(t@, j as int) == run_end_hex(t@, k as int),
            class == 1 ==> run_end_digit(t@, j as int) == run_end_digit(t@, k as int),
            class >= 2 ==> run_end_name(t@, j as int) == run_end_name(t@, k as int),
        decreases t.len() - k,
    {
        let c = char_at(t, k);
        let member = if class == 0 {
            is_ascii_hexdigit(c)
        } else if class == 1 {
            is_ascii_digit(c)
        } else {
            is_alphanumeric(c) || c == '_'
        };
        if !member {
            return Some(k);
        }
        k += 1;
    }
    None
}

/// See [`entity_ref`].
fn parse_entity_ref(t: &[char], index: usize) -> (r: Option<usize>)
    requires
        index <= t@.len(),
    ensures
        r matches Some(e) ==> entity_ref(t@, index as int) == Some(e as int),
        r is None ==> entity_ref(t@, index as int) is None,
{
    let n = t.len();
    if index >= n || char_at(t, index) != '&' || index + 1 >= n {
        return None;
    }
    let c = char_at(t, index + 1);
    let k = if c == '#' {
        let i2 = index + 2;
        if i2 >= n {
            return None;
        }
        let c2 = char_at(t, i2);
        if c2 == 'x' || c2 == 'X' {
            let i3 = i2 + 1;
            if i3 >= n || !is_ascii_hexdigit(char_at(t, i3)) {
                return None;
            }
            run_end(t, i3, 0)
        } else if is_ascii_digit(c2) {
            run_end(t, i2, 1)
        } else {
            return None;
        }
    } else if is_alphanumeric(c) || c == '_' {
        run_end(t, index + 1, 2)
    } else {
        return None;
    };
    match k {
        Some(k) => {
            if char_at(t, k) == ';' {
                Some(k + 1)
            } else {
                None
            }
        },
        None => None,
    }
}

/// The quoted attribute value at `index`; its pieces are added to `segs`.
/// See [`attr_value`].
fn parse_attr_value(t: &[char], index: usize, quote: char, segs: &mut Vec<Segment>) -> (r: usize)
    requires
        index <= t@.len(),
        segs_ordered(segs_view(old(segs)@), t@.len() as int),
        segs_before(segs_view(old(segs)@), index as int),
    ensures
        r == attr_value(t@, index as int, quote).0,
        segs_view(final(segs)@) == segs_view(old(segs)@) + attr_value(t@, index as int, quote).1,
        segs_ordered(segs_view(final(segs)@), t@.len() as int),
        segs_before(segs_view(final(segs)@), r as int),
        index <= r <= t@.len(),
{
    let n = t.len();
    if index >= n || char_at(t, index) != quote {
        assert(segs_view(segs@) =~= segs_view(old(segs)@) + seq![]);
        return n;
    }
    let ghost start = segs_view(segs@);
    let ghost target = attr_value_scan(t@, index as int, index + 1, quote);
    proof {
        lemma_attr_value_scan_bounds(t@, index as int, index + 1, quote);
    }
    let mut prev = index;
    let mut i = index + 1;
    loop
        invariant
            n == t@.len(),
            index <= prev <= i <= n,
            attr_value_scan(t@, prev as int, i as int, quote).0 == target.0,
            segs_view(segs@) + attr_value_scan(t@, prev as int, i as int, quote).1 == start + target.1,
            target == attr_value(t@, index as int, quote),
            start == segs_view(old(segs)@),
            segs_ordered(segs_view(segs@), n as int),
            segs_before(segs_view(segs@), prev as int),
            index < target.0 <= n,
        decreases n - i,
    {
        let ghost before = segs_view(segs@);
        let ghost cur = attr_value_scan(t@, prev as int, i as int, quote);
        proof {
            lemma_quote_or_amp_bounds(t@, i as int, quote);
        }
        let mut k = i;
        while k < n && char_at(t, k) != '&' && char_at(t, k) != quote
            invariant
                i <= k <= n,
                n == t@.len(),
                quote_or_amp(t@, i as int, quote) == quote_or_amp(t@, k as int, quote),
            decreases n - k,
        {
            k += 1;
        }
        if k >= n {
            add_seg(segs, error_style_value(), i, n, n);
            assert(segs_view(segs@) =~= start + target.1);
            return n;
        }
        if prev < k {
            add_seg(segs, string_style_value(), prev, k, n);
        }
        let ghost s1 = if prev < k { seq![(string_style(), prev as int, k as int)] } else { seq![] };
        assert(segs_view(segs@) =~= before + s1);
        if char_at(t, k) == '&' {
            proof {
                lemma_entity_ref_bounds(t@, k as int);
            }
            match parse_entity_ref(t, k) {
                None => {
                    add_seg(segs, error_style_value(), k, n, n);
                    assert(segs_view(segs@) =~= start + target.1);
                    return n;
                },
                Some(e) => {
                    add_seg(segs, keyword_style_value(), k, e, n);
                    assert(segs_view(segs@) + attr_value_scan(t@, e as int, e as int, quote).1 =~= before + cur.1);
                    prev = e;
                    i = e;
                },
            }
        } else {
            add_seg(segs, string_style_value(), k, k + 1, n);
            assert(segs_view(segs@) =~= start + target.1);
            return k + 1;
        }
    }
}

} // verus!

verus! {


/// The value after `=` at `index`; its pieces are added to `segs`.  See
/// [`attr_value_part`].
fn attr_value_part_exec(t: &[char], index: usize, segs: &mut Vec<Segment>) -> (r: Option<usize>)
    requires
        index <= t@.len(),
        segs_ordered(segs_view(old(segs)@), t@.len() as int),
        segs_before(segs_view(old(segs)@), index as int),
    ensures
        segs_ordered(segs_view(final(segs)@), t@.len() as int),
        match attr_value_part(t@, index as int) {
            None => r is None && segs_view(final(segs)@) == segs_view(old(segs)@),
            Some((e, sv)) => r == Some(e as usize) && segs_view(final(segs)@) == segs_view(old(segs)@) + sv
                && segs_before(segs_view(final(segs)@), e) && index <= e <= t@.len(),
        },
{
    let n = t.len();
    proof {
        lemma_attr_value_part_bounds(t@, index as int);
        reveal(attr_value_part);
    }
    if index < n && { let c = char_at(t, index); is_alphanumeric(c) || c == '_' || c == '-' } {
        let e = find_plain_attr_value_end(t, index);
        proof {
            lemma_plain_value_end_bounds(t@, index as int);
        }
        let ghost before = segs_view(segs@);
        add_seg(segs, string_style_value(), index, e, n);
        assert(segs_view(segs@) =~= before + seq![(string_style(), index as int, e as int)]);
        Some(e)
    } else if index < n && char_at(t, index) == '"' {
        Some(parse_attr_value(t, index, '"', segs))
    } else if index < n && char_at(t, index) == '\'' {
        Some(parse_attr_value(t, index, '\'', segs))
    } else {
        None
    }
}

/// One attribute from `i` on (see [`attributes`]): `(true, end)` where the
/// attributes end, `(false, next)` where another may follow at `next`.
#[verifier::rlimit(80)]
fn attr_step(t: &[char], i: usize, segs: &mut Vec<Segment>) -> (r: (bool, usize))
    requires
        i <= t@.len(),
        segs_ordered(segs_view(old(segs)@), t@.len() as int),
        segs_before(segs_view(old(segs)@), i as int),
    ensures
        segs_ordered(segs_view(final(segs)@), t@.len() as int),
        segs_before(segs_view(final(segs)@), r.1 as int),
        r.0 ==> r.1 == attributes(t@, i as int).0
            && segs_view(final(segs)@) == segs_view(old(segs)@) + attributes(t@, i as int).1,
        !r.0 ==> i < r.1 <= t@.len() && attributes(t@, r.1 as int).0 == attributes(t@, i as int).0
            && segs_view(final(segs)@) + attributes(t@, r.1 as int).1 == segs_view(old(segs)@) + attributes(t@, i as int).1,
{
    let n = t.len();
    let ghost before = segs_view(segs@);
    let ghost cur = attributes(t@, i as int);
    let i1 = skipws(t, i);
    if i < i1 {
        add_seg(segs, default_style_value(), i, i1, n);
    }
    assert(segs_view(segs@) =~= before + plain(i as int, i1 as int));
    if !(i1 < n && { let c = char_at(t, i1); is_alphanumeric(c) || c == '_' || c == '-' }) {
        assert(segs_view(segs@) =~= before + cur.1);
        return (true, i1);
    }
    proof {
        lemma_word_end_bounds(t@, i1 as int);
    }
    let w = find_word_end(t, i1);
    add_seg(segs, attr_style_value(), i1, w, n);
    let i2 = skipws(t, w);
    if w < i2 {
        add_seg(segs, default_style_value(), w, i2, n);
    }
    let ghost s2 = plain(i as int, i1 as int).push((attr_style(), i1 as int, w as int)) + plain(w as int, i2 as int);
    assert(segs_view(segs@) =~= before + s2);
    if i2 < n && char_at(t, i2) == '=' {
        add_seg(segs, symbol_style_value(), i2, i2 + 1, n);
        let i3 = skipws(t, i2 + 1);
        if i2 + 1 < i3 {
            add_seg(segs, default_style_value(), i2 + 1, i3, n);
        }
        let ghost s3 = s2.push((symbol_style(), i2 as int, i2 + 1)) + plain(i2 + 1, i3 as int);
        assert(segs_view(segs@) =~= before + s3);
        match attr_value_part_exec(t, i3, segs) {
            None => {
                assert(segs_view(segs@) =~= before + cur.1);
                (true, i3)
            },
            Some(e) => {
                assert(segs_view(segs@) + attributes(t@, e as int).1 =~= before + cur.1);
                (false, e)
            },
        }
    } else {
        assert(segs_view(segs@) + attributes(t@, i2 as int).1 =~= before + cur.1);
        (false, i2)
    }
}

/// The attributes from `index` on; their pieces are added to `segs`.  See
/// [`attributes`].
fn parse_attributes(t: &[char], index: usize, segs: &mut Vec<Segment>) -> (r: usize)
    requires
        index <= t@.len(),
        segs_ordered(segs_view(old(segs)@), t@.len() as int),
        segs_before(segs_view(old(segs)@), index as int),
    ensures
        r == attributes(t@, index as int).0,
        segs_view(final(segs)@) == segs_view(old(segs)@) + attributes(t@, index as int).1,
        segs_ordered(segs_view(final(segs)@), t@.len() as int),
        segs_before(segs_view(final(segs)@), r as int),
        index <= r <= t@.len(),
{
    let n = t.len();
    let ghost start = segs_view(segs@);
    let ghost target = attributes(t@, index as int);
    proof {
        lemma_attributes_bounds(t@, index as int);
    }
    let mut i = index;
    loop
        invariant
            n == t@.len(),
            index <= i <= n,
            attributes(t@, i as int).0 == target.0,
            segs_view(segs@) + attributes(t@, i as int).1 == start + target.1,
            target == attributes(t@, index as int),
            start == segs_view(old(segs)@),
            index <= target.0 <= n,
            segs_ordered(segs_view(segs@), n as int),
            segs_before(segs_view(segs@), i as int),
        decreases n - i,
    {
        let (done, next) = attr_step(t, i, segs);
        if done {
            return next;
        }
        i = next;
    }
}

/// The end of a tag at `index`; see [`tag_close`].
fn tag_close_exec(t: &[char], index: usize, kind: TagKind, segs: &mut Vec<Segment>) -> (r: usize)
    requires
        index <= t@.len(),
        segs_ordered(segs_view(old(segs)@), t@.len() as int),
        segs_before(segs_view(old(segs)@), index as int),
    ensures
        r == tag_close(t@, index as int, kind).0,
        segs_view(final(segs)@) == segs_view(old(segs)@) + tag_close(t@, index as int, kind).1,
        segs_ordered(segs_view(final(segs)@), t@.len() as int),
        segs_before(segs_view(final(segs)@), r as int),
        index <= r <= t@.len(),
{
    let n = t.len();
    let ghost before = segs_view(segs@);
    let pi = to_chars("?>");
    let sc = to_chars("/>");
    proof {
        reveal_strlit("?>");
        reveal_strlit("/>");
    }
    let is_pi = match kind { TagKind::Instruction => true, _ => false };
    let is_start = match kind { TagKind::Start => true, _ => false };
    if is_pi && starts_with_at(t, index, pi.as_slice()) {
        add_seg(segs, symbol_style_value(), index, index + 2, n);
        assert(segs_view(segs@) =~= before + tag_close(t@, index as int, kind).1);
        return index + 2;
    }
    if index < n && !is_pi && char_at(t, index) == '>' {
        add_seg(segs, symbol_style_value(), index, index + 1, n);
        assert(segs_view(segs@) =~= before + tag_close(t@, index as int, kind).1);
        return index + 1;
    }
    if is_start && starts_with_at(t, index, sc.as_slice()) {
        add_seg(segs, symbol_style_value(), index, index + 2, n);
        assert(segs_view(segs@) =~= before + tag_close(t@, index as int, kind).1);
        return index + 2;
    }
    if index < n {
        add_seg(segs, error_style_value(), index, index + 1, n);
        assert(segs_view(segs@) =~= before + tag_close(t@, index as int, kind).1);
        return index + 1;
    }
    assert(segs_view(segs@) =~= before + seq![]);
    index
}

} // verus!

verus! {

/// The markup at `i`; its pieces are added to `segs`.  See [`markup`].
#[verifier::rlimit(60)]
fn markup_exec(t: &[char], i: usize, segs: &mut Vec<Segment>) -> (r: Option<usize>)
    requires
        i < t@.len(),
        t@.len() < usize::MAX,
        t@[i as int] == '<' || t@[i as int] == '&',
        segs_ordered(segs_view(old(segs)@), t@.len() as int),
        segs_before(segs_view(old(segs)@), i as int),
    ensures
        segs_view(final(segs)@) == segs_view(old(segs)@) + markup(t@, i as int).1,
        segs_ordered(segs_view(final(segs)@), t@.len() as int),
        match markup(t@, i as int).0 {
            Some(e) => r == Some(e as usize) && segs_before(segs_view(final(segs)@), e),
            None => r is None,
        },
{
    let n = t.len();
    let ghost before = segs_view(segs@);
    proof {
        lemma_markup_progress(t@, i as int);
        reveal_strlit("<![CDATA[");
        reveal_strlit("]]>");
        reveal_strlit("<!--");
        reveal_strlit("-->");
        reveal_strlit("<!DOCTYPE");
        reveal_strlit("<!");
        reveal_strlit("<?");
        reveal_strlit("</");
    }
    let cdata = to_chars("<![CDATA[");
    let cdata_end = to_chars("]]>");
    let comment = to_chars("<!--");
    let comment_end = to_chars("-->");
    let doctype = to_chars("<!DOCTYPE");
    let bang = to_chars("<!");
    let pi = to_chars("<?");
    let end_tag = to_chars("</");
    if starts_with_at(t, i, cdata.as_slice()) {
        let j = i + 9;
        proof {
            lemma_find_str_bounds(t@, j as int, "]]>"@);
        }
        match find_str_exec(t, j, cdata_end.as_slice()) {
            None => {
                add_seg(segs, error_style_value(), i, n, n);
                assert(segs_view(segs@) =~= before + markup(t@, i as int).1);
                None
            },
            Some(e) => {
                add_seg(segs, comment_style_value(), i, j, n);
                add_seg(segs, default_style_value(), j, e, n);
                add_seg(segs, comment_style_value(), e, e + 3, n);
                assert(segs_view(segs@) =~= before + markup(t@, i as int).1);
                Some(e + 3)
            },
        }
    } else if starts_with_at(t, i, comment.as_slice()) {
        proof {
            lemma_find_str_bounds(t@, i + 4, "-->"@);
        }
        match find_str_exec(t, i + 4, comment_end.as_slice()) {
            None => {
                add_seg(segs, comment_style_value(), i, n, n);
                assert(segs_view(segs@) =~= before + markup(t@, i as int).1);
                None
            },
            Some(e) => {
                add_seg(segs, comment_style_value(), i, e + 3, n);
                assert(segs_view(segs@) =~= before + markup(t@, i as int).1);
                Some(e + 3)
            },
        }
    } else if n - i > 9 && chars_eq_ignore_ascii_case(vstd::slice::slice_subrange(t, i, i + 9), doctype.as_slice())
        && { let c = char_at(t, i + 9); !(is_alphanumeric(c) || c == '_' || c == '-') } {
        proof {
            assert(t@.skip(i as int).take(9) =~= t@.subrange(i as int, i + 9));
            lemma_nested_end_bounds(t@, i + 9, 1);
        }
        match find_nested_angle_end(t, i + 9) {
            None => {
                add_seg(segs, error_style_value(), i, n, n);
                assert(segs_view(segs@) =~= before + markup(t@, i as int).1);
                None
            },
            Some(e) => {
                add_seg(segs, doctype_style_value(), i, e, n);
                assert(segs_view(segs@) =~= before + markup(t@, i as int).1);
                Some(e)
            },
        }
    } else {
        proof {
            if n - i > 9 {
                assert(t@.skip(i as int).take(9) =~= t@.subrange(i as int, i + 9));
            }
        }
        markup_rest(t, i, segs)
    }
}

/// The markup at `i` that is no CDATA section, comment or document type
/// declaration; see [`markup`].
#[verifier::rlimit(60)]
fn markup_rest(t: &[char], i: usize, segs: &mut Vec<Segment>) -> (r: Option<usize>)
    requires
        i < t@.len(),
        t@.len() < usize::MAX,
        t@[i as int] == '<' || t@[i as int] == '&',
        !starts_with(t@.skip(i as int), "<![CDATA["@),
        !starts_with(t@.skip(i as int), "<!--"@),
        !(t@.skip(i as int).len() > 9 && eq_ignore_ascii_case(t@.skip(i as int).take(9), "<!DOCTYPE"@)
            && !attr_start_char(t@.skip(i as int)[9])),
        segs_ordered(segs_view(old(segs)@), t@.len() as int),
        segs_before(segs_view(old(segs)@), i as int),
    ensures
        segs_view(final(segs)@) == segs_view(old(segs)@) + markup(t@, i as int).1,
        segs_ordered(segs_view(final(segs)@), t@.len() as int),
        match markup(t@, i as int).0 {
            Some(e) => r == Some(e as usize) && segs_before(segs_view(final(segs)@), e),
            None => r is None,
        },
{
    let n = t.len();
    let ghost before = segs_view(segs@);
    proof {
        lemma_markup_progress(t@, i as int);
        reveal_strlit("<!");
        reveal_strlit("<?");
        reveal_strlit("</");
    }
    let bang = to_chars("<!");
    let pi = to_chars("<?");
    let end_tag = to_chars("</");
    if starts_with_at(t, i, bang.as_slice()) {
        proof {
            lemma_nested_end_bounds(t@, i + 2, 1);
        }
        match find_nested_angle_end(t, i + 2) {
            None => {
                add_seg(segs, error_style_value(), i, n, n);
                assert(segs_view(segs@) =~= before + markup(t@, i as int).1);
                None
            },
            Some(e) => {
                add_seg(segs, error_style_value(), i, e, n);
                assert(segs_view(segs@) =~= before + markup(t@, i as int).1);
                Some(e)
            },
        }
    } else if starts_with_at(t, i, pi.as_slice()) {
        add_seg(segs, symbol_style_value(), i, i + 2, n);
        proof {
            lemma_word_end_bounds(t@, i + 2);
        }
        let w = find_word_end(t, i + 2);
        add_seg(segs, tag_style_value(), i + 2, w, n);
        let a = parse_attributes(t, w, segs);
        let e = tag_close_exec(t, a, TagKind::Instruction, segs);
        assert(segs_view(segs@) =~= before + markup(t@, i as int).1);
        Some(e)
    } else if starts_with_at(t, i, end_tag.as_slice()) {
        add_seg(segs, symbol_style_value(), i, i + 2, n);
        proof {
            lemma_word_end_bounds(t@, i + 2);
        }
        let w = find_word_end(t, i + 2);
        add_seg(segs, tag_style_value(), i + 2, w, n);
        let k = skipws(t, w);
        if w < k {
            add_seg(segs, default_style_value(), w, k, n);
        }
        let e = tag_close_exec(t, k, TagKind::End, segs);
        assert(segs_view(segs@) =~= before + markup(t@, i as int).1);
        Some(e)
    } else if char_at(t, i) == '<' {
        add_seg(segs, symbol_style_value(), i, i + 1, n);
        proof {
            lemma_word_end_bounds(t@, i + 1);
        }
        let w = find_word_end(t, i + 1);
        add_seg(segs, tag_style_value(), i + 1, w, n);
        let a = parse_attributes(t, w, segs);
        let e = tag_close_exec(t, a, TagKind::Start, segs);
        assert(segs_view(segs@) =~= before + markup(t@, i as int).1);
        Some(e)
    } else {
        proof {
            lemma_entity_ref_bounds(t@, i as int);
        }
        match parse_entity_ref(t, i) {
            Some(e) => {
                add_seg(segs, keyword_style_value(), i, e, n);
                assert(segs_view(segs@) =~= before + markup(t@, i as int).1);
                Some(e)
            },
            None => {
                add_seg(segs, error_style_value(), i, i + 1, n);
                assert(segs_view(segs@) =~= before + markup(t@, i as int).1);
                Some(i + 1)
            },
        }
    }
}

/// The pieces of the markup text `t`; see [`sgml_segments`].
pub fn sgml_pieces(t: &[char]) -> (r: Vec<Segment>)
    requires
        t@.len() < usize::MAX,
    ensures
        segs_view(r@) == sgml_segments(t@),
        segs_ordered(segs_view(r@), t@.len() as int),
{
    let n = t.len();
    let mut segs: Vec<Segment> = Vec::new();
    let ghost target = sgml_segments(t@);
    let mut index: usize = 0;
    assert(segs_view(segs@) + sgml_from(t@, 0) =~= target);
    while index < n
        invariant
            n == t@.len(),
            n < usize::MAX,
            index <= n,
            segs_view(segs@) + sgml_from(t@, index as int) == target,
            target == sgml_segments(t@),
            segs_ordered(segs_view(segs@), n as int),
            segs_before(segs_view(segs@), index as int),
        decreases n - index,
    {
        let ghost before = segs_view(segs@);
        let ghost rest = sgml_from(t@, index as int);
        proof {
            lemma_sgml_start_bounds(t@, index as int);
        }
        let i = find_sgml_start(t, index);
        if index < i {
            add_seg(&mut segs, default_style_value(), index, i, n);
        }
        assert(segs_view(segs@) =~= before + plain(index as int, i as int));
        if i >= n {
            assert(segs_view(segs@) =~= target);
            return segs;
        }
        match markup_exec(t, i, &mut segs) {
            None => {
                assert(segs_view(segs@) =~= target);
                return segs;
            },
            Some(e) => {
                proof {
                    lemma_markup_progress(t@, i as int);
                }
                assert(segs_view(segs@) + sgml_from(t@, e as int) =~= before + rest);
                index = e;
            },
        }
    }
    assert(segs_view(segs@) =~= target);
    segs
}

/// Appends the markup text `sgml` with its parts coloured; see
/// [`sgml_segments`].
pub fn colorize_sgml(sgml: &str, widths: &[i32], rich_text: &mut RichText)
    requires
        widths@.len() == sgml@.len(),
        valid_widths(widths@),
        room_for(old(rich_text).lines_v(), sgml@.len()),
    ensures
        (final(rich_text).lines_v(), final(rich_text).width as nat)
            == apply_segs(old(rich_text).lines_v(), old(rich_text).width as nat, sgml@, widths@, sgml_segments(sgml@)),
{
    let t = to_chars(sgml);
    let segs = sgml_pieces(t.as_slice());
    append_segments(rich_text, t.as_slice(), widths, segs.as_slice());
}

} // verus!
