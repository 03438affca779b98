use vstd::prelude::*;
use crate::color::{Color, Color16};
use crate::style::{FontStyle, FontWeight, TextDecoration};
use crate::text::{push_char, char_from_u32, to_chars, string_from_chars, is_ascii_control, spec_is_ascii_control};
use crate::char_width::{valid_widths, visible_width, wcswidth_ignore_unprintable, lemma_visible_width_bound};
use crate::ansi::{fg_sequence, bg_sequence, write_fg, write_bg};
use crate::style::{font_weight_sgr, text_decoration_sgr, font_style_sgr, sgr_of};

verus! {

/// The full set of text attributes.
#[derive(Debug, Clone, Copy, PartialEq, Eq, Structural)]
pub struct RichTextStyle {
    pub font_weight: FontWeight,
    pub text_decoration: TextDecoration,
    pub font_style: FontStyle,
    pub foreground: Color,
    pub background: Color,
}

/// Normal weight, no decoration, upright, default colours.
pub open spec fn default_style() -> RichTextStyle {
    RichTextStyle {
        font_weight: FontWeight::Normal,
        text_decoration: TextDecoration::Plain,
        font_style: FontStyle::Normal,
        foreground: Color::Default,
        background: Color::Default,
    }
}

/// The style in which control characters are shown: the default style with
/// a blue foreground.
pub open spec fn control_style() -> RichTextStyle {
    RichTextStyle { foreground: Color::Color16(Color16::Blue), ..default_style() }
}

pub fn default_style_value() -> (s: RichTextStyle)
    ensures
        s == default_style(),
{
    RichTextStyle {
        font_weight: FontWeight::Normal,
        text_decoration: TextDecoration::Plain,
        font_style: FontStyle::Normal,
        foreground: Color::Default,
        background: Color::Default,
    }
}

pub fn control_style_value() -> (s: RichTextStyle)
    ensures
        s == control_style(),
{
    RichTextStyle {
        font_weight: FontWeight::Normal,
        text_decoration: TextDecoration::Plain,
        font_style: FontStyle::Normal,
        foreground: Color::Color16(Color16::Blue),
        background: Color::Default,
    }
}

/// One element of a line of rich text: a change of one attribute, or a run
/// of text with its width in columns.
#[derive(Debug)]
pub enum RichTextCode {
    FontWeight(FontWeight),
    TextDecoration(TextDecoration),
    FontStyle(FontStyle),
    Foreground(Color),
    Background(Color),
    Text { text: String, width: usize },
}

/// What a [`RichTextCode`] holds, with the text as characters.
pub ghost enum Code {
    FontWeight(FontWeight),
    TextDecoration(TextDecoration),
    FontStyle(FontStyle),
    Foreground(Color),
    Background(Color),
    Text { text: Seq<char>, width: nat },
}

impl View for RichTextCode {
    type V = Code;

    open spec fn view(&self) -> Code {
        match self {
            RichTextCode::FontWeight(w) => Code::FontWeight(*w),
            RichTextCode::TextDecoration(d) => Code::TextDecoration(*d),
            RichTextCode::FontStyle(s) => Code::FontStyle(*s),
            RichTextCode::Foreground(c) => Code::Foreground(*c),
            RichTextCode::Background(c) => Code::Background(*c),
            RichTextCode::Text { text, width } => Code::Text { text: text@, width: *width as nat },
        }
    }
}

/// The codes of a line.
pub open spec fn line_view(line: Seq<RichTextCode>) -> Seq<Code> {
    line.map_values(|c: RichTextCode| c@)
}

/// Columns taken by the text of a line.
pub open spec fn code_width(c: Code) -> nat {
    match c {
        Code::Text { width, .. } => width,
        _ => 0,
    }
}

pub open spec fn line_width_spec(line: Seq<Code>) -> nat
    decreases line.len(),
{
    if line.len() == 0 {
        0
    } else {
        line_width_spec(line.drop_last()) + code_width(line.last())
    }
}

pub proof fn lemma_line_width_push(line: Seq<Code>, c: Code)
    ensures
        line_width_spec(line.push(c)) == line_width_spec(line) + code_width(c),
{
    assert(line.push(c).drop_last() =~= line);
}

pub proof fn lemma_line_width_concat(a: Seq<Code>, b: Seq<Code>)
    ensures
        line_width_spec(a + b) == line_width_spec(a) + line_width_spec(b),
    decreases b.len(),
{
    if b.len() == 0 {
        assert(a + b =~= a);
    } else {
        assert((a + b).drop_last() =~= a + b.drop_last());
        lemma_line_width_concat(a, b.drop_last());
    }
}

pub proof fn lemma_line_width_update_last(line: Seq<Code>, c: Code)
    requires
        line.len() > 0,
    ensures
        line_width_spec(line.update(line.len() - 1, c)) == line_width_spec(line) - code_width(line.last()) + code_width(c),
{
    assert(line.update(line.len() - 1, c).drop_last() =~= line.drop_last());
}

impl RichTextCode {
    /// Columns taken: the width of a text run, none for a style change.
    pub fn width(&self) -> (r: usize)
        ensures
            r == code_width(self@),
    {
        match self {
            RichTextCode::Text { width, .. } => *width,
            _ => 0,
        }
    }

    /// A copy of this code.
    pub fn duplicate(&self) -> (r: RichTextCode)
        ensures
            r@ == self@,
    {
        match self {
            RichTextCode::FontWeight(w) => RichTextCode::FontWeight(*w),
            RichTextCode::TextDecoration(d) => RichTextCode::TextDecoration(*d),
            RichTextCode::FontStyle(s) => RichTextCode::FontStyle(*s),
            RichTextCode::Foreground(c) => RichTextCode::Foreground(*c),
            RichTextCode::Background(c) => RichTextCode::Background(*c),
            RichTextCode::Text { text, width } => RichTextCode::Text { text: text.clone(), width: *width },
        }
    }
}

/// Columns taken by the text of a line.
pub fn line_width(line: &[RichTextCode]) -> (r: usize)
    requires
        line_width_spec(line_view(line@)) <= usize::MAX,
    ensures
        r == line_width_spec(line_view(line@)),
{
    let mut w: usize = 0;
    let mut i: usize = 0;
    while i < line.len()
        invariant
            i <= line@.len(),
            line_width_spec(line_view(line@)) <= usize::MAX,
            w == line_width_spec(line_view(line@.take(i as int))),
        decreases line.len() - i,
    {
        proof {
            assert(line_view(line@.take(i + 1)) =~= line_view(line@.take(i as int)).push(line@[i as int]@));
            lemma_line_width_push(line_view(line@.take(i as int)), line@[i as int]@);
            assert(line_view(line@) =~= line_view(line@.take(i + 1)) + line_view(line@.skip(i + 1)));
            lemma_line_width_concat(line_view(line@.take(i + 1)), line_view(line@.skip(i + 1)));
        }
        w = w + line[i].width();
        i += 1;
    }
    assert(line@.take(i as int) =~= line@);
    w
}

/// Copies of the codes `src`, appended to `dst`.
pub fn extend_codes(dst: &mut Vec<RichTextCode>, src: &[RichTextCode])
    ensures
        line_view(final(dst)@) == line_view(old(dst)@) + line_view(src@),
{
    let ghost start = line_view(dst@);
    let mut i: usize = 0;
    while i < src.len()
        invariant
            i <= src@.len(),
            line_view(dst@) == start + line_view(src@.take(i as int)),
        decreases src.len() - i,
    {
        let ghost prev = dst@;
        dst.push(src[i].duplicate());
        proof {
            assert(line_view(src@.take(i + 1)) =~= line_view(src@.take(i as int)).push(src@[i as int]@));
            assert(line_view(dst@) =~= line_view(prev).push(src@[i as int]@));
        }
        assert(line_view(dst@) =~= start + line_view(src@.take(i + 1)));
        i += 1;
    }
    assert(src@.take(i as int) =~= src@);
}

/// The style changes that lead from `from` to `to`, in the order weight,
/// decoration, slant, foreground, background; none for an attribute that
/// stays.
pub open spec fn diff_codes(from: RichTextStyle, to: RichTextStyle) -> Seq<Code> {
    (if from.font_weight != to.font_weight { seq![Code::FontWeight(to.font_weight)] } else { seq![] })
    + (if from.text_decoration != to.text_decoration { seq![Code::TextDecoration(to.text_decoration)] } else { seq![] })
    + (if from.font_style != to.font_style { seq![Code::FontStyle(to.font_style)] } else { seq![] })
    + (if from.foreground != to.foreground { seq![Code::Foreground(to.foreground)] } else { seq![] })
    + (if from.background != to.background { seq![Code::Background(to.background)] } else { seq![] })
}

/// The style after the changes of `codes` are applied to `style`.
pub open spec fn apply_codes(style: RichTextStyle, codes: Seq<Code>) -> RichTextStyle
    decreases codes.len(),
{
    if codes.len() == 0 {
        style
    } else {
        let s = apply_codes(style, codes.drop_last());
        match codes.last() {
            Code::FontWeight(w) => RichTextStyle { font_weight: w, ..s },
            Code::TextDecoration(d) => RichTextStyle { text_decoration: d, ..s },
            Code::FontStyle(f) => RichTextStyle { font_style: f, ..s },
            Code::Foreground(c) => RichTextStyle { foreground: c, ..s },
            Code::Background(c) => RichTextStyle { background: c, ..s },
            Code::Text { .. } => s,
        }
    }
}

/// The font weight of the last font weight code of `codes`, or `w` where
/// there is none.
pub open spec fn last_font_weight(codes: Seq<Code>, w: FontWeight) -> FontWeight
    decreases codes.len(),
{
    if codes.len() == 0 { w } else if let Code::FontWeight(x) = codes.last() { x } else { last_font_weight(codes.drop_last(), w) }
}

/// The decoration of the last decoration code of `codes`, or `d`.
pub open spec fn last_decoration(codes: Seq<Code>, d: TextDecoration) -> TextDecoration
    decreases codes.len(),
{
    if codes.len() == 0 { d } else if let Code::TextDecoration(x) = codes.last() { x } else { last_decoration(codes.drop_last(), d) }
}

/// The slant of the last slant code of `codes`, or `f`.
pub open spec fn last_font_style(codes: Seq<Code>, f: FontStyle) -> FontStyle
    decreases codes.len(),
{
    if codes.len() == 0 { f } else if let Code::FontStyle(x) = codes.last() { x } else { last_font_style(codes.drop_last(), f) }
}

/// The colour of the last foreground code of `codes`, or `c`.
pub open spec fn last_foreground(codes: Seq<Code>, c: Color) -> Color
    decreases codes.len(),
{
    if codes.len() == 0 { c } else if let Code::Foreground(x) = codes.last() { x } else { last_foreground(codes.drop_last(), c) }
}

/// The colour of the last background code of `codes`, or `c`.
pub open spec fn last_background(codes: Seq<Code>, c: Color) -> Color
    decreases codes.len(),
{
    if codes.len() == 0 { c } else if let Code::Background(x) = codes.last() { x } else { last_background(codes.drop_last(), c) }
}

/// Applying codes to a style: for each attribute, the last code for it
/// wins; an attribute without a code keeps its value.
pub proof fn last_code_wins(style: RichTextStyle, codes: Seq<Code>)
    ensures
        apply_codes(style, codes) == (RichTextStyle {
            font_weight: last_font_weight(codes, style.font_weight),
            text_decoration: last_decoration(codes, style.text_decoration),
            font_style: last_font_style(codes, style.font_style),
            foreground: last_foreground(codes, style.foreground),
            background: last_background(codes, style.background),
        }),
    decreases codes.len(),
{
    if codes.len() > 0 {
        last_code_wins(style, codes.drop_last());
    }
}

/// Text runs do not change a style.
pub proof fn text_keeps_style(style: RichTextStyle, codes: Seq<Code>)
    requires
        forall|i: int| 0 <= i < codes.len() ==> #[trigger] codes[i] is Text,
    ensures
        apply_codes(style, codes) == style,
    decreases codes.len(),
{
    if codes.len() > 0 {
        assert forall|i: int| 0 <= i < codes.drop_last().len() implies #[trigger] codes.drop_last()[i] is Text by {
            assert(codes.drop_last()[i] == codes[i]);
        }
        text_keeps_style(style, codes.drop_last());
        assert(codes[codes.len() - 1] is Text);
    }
}

pub proof fn lemma_apply_codes_concat(style: RichTextStyle, a: Seq<Code>, b: Seq<Code>)
    ensures
        apply_codes(style, a + b) == apply_codes(apply_codes(style, a), b),
    decreases b.len(),
{
    if b.len() == 0 {
        assert(a + b =~= a);
    } else {
        assert((a + b).drop_last() =~= a + b.drop_last());
        lemma_apply_codes_concat(style, a, b.drop_last());
    }
}

/// Applying the changes from one style to another yields the other.
pub proof fn diff_then_apply(from: RichTextStyle, to: RichTextStyle)
    ensures
        apply_codes(from, diff_codes(from, to)) == to,
{
    let d = diff_codes(from, to);
    let w = (if from.font_weight != to.font_weight { seq![Code::FontWeight(to.font_weight)] } else { seq![] });
    let t = (if from.text_decoration != to.text_decoration { seq![Code::TextDecoration(to.text_decoration)] } else { seq![] });
    let s = (if from.font_style != to.font_style { seq![Code::FontStyle(to.font_style)] } else { seq![] });
    let f = (if from.foreground != to.foreground { seq![Code::Foreground(to.foreground)] } else { seq![] });
    let b = (if from.background != to.background { seq![Code::Background(to.background)] } else { seq![] });
    lemma_apply_codes_concat(from, w + t + s + f, b);
    lemma_apply_codes_concat(from, w + t + s, f);
    lemma_apply_codes_concat(from, w + t, s);
    lemma_apply_codes_concat(from, w, t);
    reveal_with_fuel(apply_codes, 2);
}

/// A style change never adds columns.
pub proof fn lemma_diff_width(from: RichTextStyle, to: RichTextStyle)
    ensures
        line_width_spec(diff_codes(from, to)) == 0,
{
    reveal_with_fuel(line_width_spec, 6);
}

/// The escape sequence for one code; text runs give their characters'
/// bytes only where they are ASCII, so this is stated for style codes.
pub open spec fn code_sgr(c: Code) -> Seq<u8> {
    match c {
        Code::FontWeight(w) => sgr_of(font_weight_sgr(w)),
        Code::TextDecoration(d) => sgr_of(text_decoration_sgr(d)),
        Code::FontStyle(s) => sgr_of(font_style_sgr(s)),
        Code::Foreground(c) => fg_sequence(c),
        Code::Background(c) => bg_sequence(c),
        Code::Text { .. } => seq![],
    }
}

/// The escape sequences of a run of style codes, one after the other.
pub open spec fn codes_sgr(codes: Seq<Code>) -> Seq<u8>
    decreases codes.len(),
{
    if codes.len() == 0 {
        seq![]
    } else {
        codes_sgr(codes.drop_last()) + code_sgr(codes.last())
    }
}

/// The escape sequences of the style codes of `codes`.
pub fn codes_to_sgr(codes: &[RichTextCode]) -> (r: Vec<u8>)
    ensures
        r@ == codes_sgr(line_view(codes@)),
{
    let mut out: Vec<u8> = Vec::new();
    let mut i: usize = 0;
    while i < codes.len()
        invariant
            i <= codes@.len(),
            out@ == codes_sgr(line_view(codes@.take(i as int))),
        decreases codes.len() - i,
    {
        proof {
            assert(line_view(codes@.take(i + 1)) =~= line_view(codes@.take(i as int)).push(codes@[i as int]@));
            assert(line_view(codes@.take(i + 1)).drop_last() =~= line_view(codes@.take(i as int)));
        }
        let ghost before = out@;
        match &codes[i] {
            RichTextCode::FontWeight(w) => {
                let mut v = w.write();
                out.append(&mut v);
            },
            RichTextCode::TextDecoration(d) => {
                let mut v = d.write();
                out.append(&mut v);
            },
            RichTextCode::FontStyle(s) => {
                let mut v = s.write();
                out.append(&mut v);
            },
            RichTextCode::Foreground(c) => write_fg(&mut out, *c),
            RichTextCode::Background(c) => write_bg(&mut out, *c),
            RichTextCode::Text { .. } => {
                assert(out@ =~= before + seq![]);
            },
        }
        i += 1;
    }
    assert(codes@.take(i as int) =~= codes@);
    out
}

impl RichTextStyle {
    pub fn new() -> (s: Self)
        ensures
            s == default_style(),
    {
        default_style_value()
    }

    pub fn default() -> (s: Self)
        ensures
            s == default_style(),
    {
        default_style_value()
    }

    /// This is the default style.
    pub fn is_default(&self) -> (r: bool)
        ensures
            r == (*self == default_style()),
    {
        *self == default_style_value()
    }

    /// Appends to `code` the changes that lead from this style to
    /// `new_style`.
    pub fn diff(&self, new_style: &RichTextStyle, code: &mut Vec<RichTextCode>)
        ensures
            line_view(final(code)@) == line_view(old(code)@) + diff_codes(*self, *new_style),
    {
        let ghost start = line_view(code@);
        if self.font_weight != new_style.font_weight {
            code.push(RichTextCode::FontWeight(new_style.font_weight));
        }
        let ghost a = line_view(code@);
        if self.text_decoration != new_style.text_decoration {
            code.push(RichTextCode::TextDecoration(new_style.text_decoration));
        }
        let ghost b = line_view(code@);
        if self.font_style != new_style.font_style {
            code.push(RichTextCode::FontStyle(new_style.font_style));
        }
        let ghost c = line_view(code@);
        if self.foreground != new_style.foreground {
            code.push(RichTextCode::Foreground(new_style.foreground));
        }
        let ghost d = line_view(code@);
        if self.background != new_style.background {
            code.push(RichTextCode::Background(new_style.background));
        }
        assert(line_view(code@) =~= start + diff_codes(*self, *new_style));
    }

    /// The escape sequences that switch the terminal from this style to
    /// `new_style`, in the order of [`diff_codes`].
    pub fn write_diff(&self, new_style: &RichTextStyle) -> (r: Vec<u8>)
        ensures
            r@ == codes_sgr(diff_codes(*self, *new_style)),
    {
        let mut codes: Vec<RichTextCode> = Vec::new();
        self.diff(new_style, &mut codes);
        assert(line_view(codes@) =~= diff_codes(*self, *new_style));
        codes_to_sgr(&codes)
    }

    /// Applies the style changes of `line`; text runs leave it unchanged.
    pub fn apply_changes(&mut self, line: &[RichTextCode])
        ensures
            *final(self) == apply_codes(*old(self), line_view(line@)),
    {
        let mut i: usize = 0;
        while i < line.len()
            invariant
                i <= line@.len(),
                *self == apply_codes(*old(self), line_view(line@.take(i as int))),
            decreases line.len() - i,
        {
            proof {
                assert(line_view(line@.take(i + 1)) =~= line_view(line@.take(i as int)).push(line@[i as int]@));
                assert(line_view(line@.take(i + 1)).drop_last() =~= line_view(line@.take(i as int)));
                assert(line_view(line@.take(i + 1)).last() == line@[i as int]@);
            }
            match &line[i] {
                RichTextCode::FontWeight(w) => {
                    self.font_weight = *w;
                },
                RichTextCode::FontStyle(s) => {
                    self.font_style = *s;
                },
                RichTextCode::TextDecoration(d) => {
                    self.text_decoration = *d;
                },
                RichTextCode::Foreground(c) => {
                    self.foreground = *c;
                },
                RichTextCode::Background(c) => {
                    self.background = *c;
                },
                RichTextCode::Text { .. } => {},
            }
            i += 1;
        }
        assert(line@.take(i as int) =~= line@);
    }

    pub fn build() -> (b: RichTextStyleBuilder)
        ensures
            b.inner == default_style(),
    {
        RichTextStyleBuilder::new()
    }
}

/// Builds a [`RichTextStyle`] one attribute at a time, from the default
/// style.
#[derive(Debug, Clone, PartialEq, Eq, Structural)]
pub struct RichTextStyleBuilder {
    pub inner: RichTextStyle,
}

impl RichTextStyleBuilder {
    pub fn new() -> (b: Self)
        ensures
            b.inner == default_style(),
    {
        RichTextStyleBuilder { inner: default_style_value() }
    }

    pub fn inner(&self) -> (r: &RichTextStyle)
        ensures
            *r == self.inner,
    {
        &self.inner
    }

    pub fn into_inner(self) -> (r: RichTextStyle)
        ensures
            r == self.inner,
    {
        self.inner
    }

    pub fn font_weight(self, font_weight: FontWeight) -> (b: Self)
        ensures
            b.inner == (RichTextStyle { font_weight, ..self.inner }),
    {
        RichTextStyleBuilder { inner: RichTextStyle { font_weight, ..self.inner } }
    }

    pub fn text_decoration(self, text_decoration: TextDecoration) -> (b: Self)
        ensures
            b.inner == (RichTextStyle { text_decoration, ..self.inner }),
    {
        RichTextStyleBuilder { inner: RichTextStyle { text_decoration, ..self.inner } }
    }

    pub fn font_style(self, font_style: FontStyle) -> (b: Self)
        ensures
            b.inner == (RichTextStyle { font_style, ..self.inner }),
    {
        RichTextStyleBuilder { inner: RichTextStyle { font_style, ..self.inner } }
    }

    pub fn foreground(self, foreground: Color) -> (b: Self)
        ensures
            b.inner == (RichTextStyle { foreground, ..self.inner }),
    {
        RichTextStyleBuilder { inner: RichTextStyle { foreground, ..self.inner } }
    }

    pub fn background(self, background: Color) -> (b: Self)
        ensures
            b.inner == (RichTextStyle { background, ..self.inner }),
    {
        RichTextStyleBuilder { inner: RichTextStyle { background, ..self.inner } }
    }
}

} // verus!

verus! {

/// Attributes that need no more attention while a new style is applied to
/// the end of a rich text.
#[derive(Debug, Clone, Copy, PartialEq, Eq, Structural)]
pub struct FinishedFeatures {
    pub font_style: bool,
    pub font_weight: bool,
    pub text_decoration: bool,
    pub foreground: bool,
    pub background: bool,
}

impl FinishedFeatures {
    pub open spec fn all(self) -> bool {
        self.font_style && self.font_weight && self.text_decoration && self.foreground && self.background
    }

    fn is_all(&self) -> (r: bool)
        ensures
            r == self.all(),
    {
        self.font_style && self.font_weight && self.text_decoration && self.foreground && self.background
    }
}

/// An attribute of the new style that is at its default needs no change:
/// the text before already ends in the default style.
pub open spec fn initial_features(style: RichTextStyle) -> FinishedFeatures {
    FinishedFeatures {
        font_style: style.font_style == FontStyle::Normal,
        font_weight: style.font_weight == FontWeight::Normal,
        text_decoration: style.text_decoration == TextDecoration::Plain,
        foreground: style.foreground == Color::Default,
        background: style.background == Color::Default,
    }
}

/// One trailing code looked at while restyling: a change of an unfinished
/// attribute is rewritten to the new style's value and marks it finished.
pub open spec fn restyle_code(c: Code, style: RichTextStyle, f: FinishedFeatures) -> (Code, FinishedFeatures) {
    match c {
        Code::FontStyle(_) => if !f.font_style {
            (Code::FontStyle(style.font_style), FinishedFeatures { font_style: true, ..f })
        } else {
            (c, f)
        },
        Code::FontWeight(_) => if !f.font_weight {
            (Code::FontWeight(style.font_weight), FinishedFeatures { font_weight: true, ..f })
        } else {
            (c, f)
        },
        Code::TextDecoration(_) => if !f.text_decoration {
            (Code::TextDecoration(style.text_decoration), FinishedFeatures { text_decoration: true, ..f })
        } else {
            (c, f)
        },
        Code::Foreground(_) => if !f.foreground {
            (Code::Foreground(style.foreground), FinishedFeatures { foreground: true, ..f })
        } else {
            (c, f)
        },
        Code::Background(_) => if !f.background {
            (Code::Background(style.background), FinishedFeatures { background: true, ..f })
        } else {
            (c, f)
        },
        Code::Text { .. } => (c, f),
    }
}

/// Restyles the trailing style codes of a line, from its end backwards,
/// until a text run or until every attribute is finished.  Returns the new
/// line, the finished attributes and whether the walk stopped in this line.
pub open spec fn restyle_line(line: Seq<Code>, style: RichTextStyle, f: FinishedFeatures) -> (Seq<Code>, FinishedFeatures, bool)
    decreases line.len(),
{
    if line.len() == 0 {
        (line, f, false)
    } else if line.last() is Text {
        (line, f, true)
    } else {
        let (c2, f2) = restyle_code(line.last(), style, f);
        if f2.all() {
            (line.drop_last().push(c2), f2, true)
        } else {
            let (rest, f3, stop) = restyle_line(line.drop_last(), style, f2);
            (rest.push(c2), f3, stop)
        }
    }
}

/// Restyles the trailing style codes of the text, from the last line
/// backwards, as [`restyle_line`] does for one line.
pub open spec fn restyle_lines(lines: Seq<Seq<Code>>, style: RichTextStyle, f: FinishedFeatures) -> (Seq<Seq<Code>>, FinishedFeatures)
    decreases lines.len(),
{
    if lines.len() == 0 {
        (lines, f)
    } else {
        let (l2, f2, stop) = restyle_line(lines.last(), style, f);
        if stop {
            (lines.drop_last().push(l2), f2)
        } else {
            let (rest, f3) = restyle_lines(lines.drop_last(), style, f2);
            (rest.push(l2), f3)
        }
    }
}

/// The codes added for attributes that restyling did not reach, in the
/// order slant, weight, decoration, foreground, background.
pub open spec fn missing_codes(style: RichTextStyle, f: FinishedFeatures) -> Seq<Code> {
    (if !f.font_style { seq![Code::FontStyle(style.font_style)] } else { seq![] })
    + (if !f.font_weight { seq![Code::FontWeight(style.font_weight)] } else { seq![] })
    + (if !f.text_decoration { seq![Code::TextDecoration(style.text_decoration)] } else { seq![] })
    + (if !f.foreground { seq![Code::Foreground(style.foreground)] } else { seq![] })
    + (if !f.background { seq![Code::Background(style.background)] } else { seq![] })
}

pub open spec fn append_to_last(lines: Seq<Seq<Code>>, cs: Seq<Code>) -> Seq<Seq<Code>> {
    lines.update(lines.len() - 1, lines.last() + cs)
}

/// The lines after the text is switched to `style` at its end: on an empty
/// text one line with the changes from the default style; nothing for the
/// default style; else the trailing style codes are rewritten and the
/// changes still missing are added to the last line.
pub open spec fn style_lines(lines: Seq<Seq<Code>>, style: RichTextStyle) -> Seq<Seq<Code>> {
    if lines.len() == 0 {
        seq![diff_codes(default_style(), style)]
    } else if style == default_style() {
        lines
    } else {
        let (l2, f) = restyle_lines(lines, style, initial_features(style));
        if f.all() { l2 } else { append_to_last(l2, missing_codes(style, f)) }
    }
}

proof fn lemma_restyle_code_width(c: Code, style: RichTextStyle, f: FinishedFeatures)
    ensures
        code_width(restyle_code(c, style, f).0) == code_width(c),
        (restyle_code(c, style, f).0 is Text) == (c is Text),
        c is Text ==> restyle_code(c, style, f).0 == c,
{
}

proof fn lemma_restyle_line_len(line: Seq<Code>, style: RichTextStyle, f: FinishedFeatures)
    ensures
        restyle_line(line, style, f).0.len() == line.len(),
        line_width_spec(restyle_line(line, style, f).0) == line_width_spec(line),
    decreases line.len(),
{
    if line.len() > 0 && !(line.last() is Text) {
        let (c2, f2) = restyle_code(line.last(), style, f);
        lemma_restyle_code_width(line.last(), style, f);
        lemma_line_width_push(line.drop_last(), c2);
        lemma_line_width_push(line.drop_last(), line.last());
        assert(line =~= line.drop_last().push(line.last()));
        if !f2.all() {
            lemma_restyle_line_len(line.drop_last(), style, f2);
            lemma_line_width_push(restyle_line(line.drop_last(), style, f2).0, c2);
        }
    }
}

proof fn lemma_restyle_lines_len(lines: Seq<Seq<Code>>, style: RichTextStyle, f: FinishedFeatures)
    ensures
        restyle_lines(lines, style, f).0.len() == lines.len(),
        lines.len() > 0 ==> line_width_spec(restyle_lines(lines, style, f).0.last()) == line_width_spec(lines.last()),
    decreases lines.len(),
{
    if lines.len() > 0 {
        lemma_restyle_line_len(lines.last(), style, f);
        let (l2, f2, stop) = restyle_line(lines.last(), style, f);
        if !stop {
            lemma_restyle_lines_len(lines.drop_last(), style, f2);
        }
    }
}

/// Restyles the trailing codes of one line in place; see [`restyle_line`].
fn restyle_line_exec(line: &mut Vec<RichTextCode>, style: &RichTextStyle, feat: &mut FinishedFeatures) -> (stop: bool)
    ensures
        (line_view(final(line)@), *final(feat), stop) == restyle_line(line_view(old(line)@), *style, *old(feat)),
{
    let ghost oline = line_view(line@);
    let ghost f0 = *feat;
    let mut j = line.len();
    let mut lstop = false;
    proof {
        let (p, f, st) = restyle_line(oline, *style, f0);
        assert(oline.take(j as int) =~= oline);
        assert(line_view(line@).skip(j as int) =~= Seq::<Code>::empty());
        assert(p + line_view(line@).skip(j as int) =~= p);
    }
    while j > 0 && !lstop
        invariant
            j <= line@.len(),
            line@.len() == oline.len(),
            line_view(line@).take(j as int) == oline.take(j as int),
            !lstop ==> restyle_line(oline, *style, f0)
                == ({
                    let (p, f, s) = restyle_line(oline.take(j as int), *style, *feat);
                    (p + line_view(line@).skip(j as int), f, s)
                }),
            lstop ==> restyle_line(oline, *style, f0) == (line_view(line@), *feat, true),
        decreases j * 2 + (if lstop { 0int } else { 1int }),
    {
        let ghost before = line_view(line@);
        let ghost fb = *feat;
        let ghost pre = oline.take(j as int);
        assert(pre.drop_last() =~= oline.take(j - 1));
        assert(pre.last() == line@[j - 1]@);
        let is_text = match &line[j - 1] {
            RichTextCode::Text { .. } => true,
            _ => false,
        };
        if is_text {
            lstop = true;
            assert(before =~= pre + before.skip(j as int));
        } else {
            match &line[j - 1] {
                RichTextCode::FontStyle(_) => {
                    if !feat.font_style {
                        line[j - 1] = RichTextCode::FontStyle(style.font_style);
                        feat.font_style = true;
                    }
                },
                RichTextCode::FontWeight(_) => {
                    if !feat.font_weight {
                        line[j - 1] = RichTextCode::FontWeight(style.font_weight);
                        feat.font_weight = true;
                    }
                },
                RichTextCode::TextDecoration(_) => {
                    if !feat.text_decoration {
                        line[j - 1] = RichTextCode::TextDecoration(style.text_decoration);
                        feat.text_decoration = true;
                    }
                },
                RichTextCode::Foreground(_) => {
                    if !feat.foreground {
                        line[j - 1] = RichTextCode::Foreground(style.foreground);
                        feat.foreground = true;
                    }
                },
                RichTextCode::Background(_) => {
                    if !feat.background {
                        line[j - 1] = RichTextCode::Background(style.background);
                        feat.background = true;
                    }
                },
                RichTextCode::Text { .. } => {},
            }
            let ghost now = line_view(line@);
            assert(restyle_code(pre.last(), *style, fb) == (now[j - 1], *feat));
            assert(now =~= before.update(j - 1, now[j - 1]));
            assert(now.take(j - 1) =~= oline.take(j - 1));
            assert(now.skip(j - 1) =~= seq![now[j - 1]] + before.skip(j as int));
            if feat.is_all() {
                lstop = true;
                assert(now =~= oline.take(j - 1).push(now[j - 1]) + before.skip(j as int));
            } else {
                let ghost r = restyle_line(oline.take(j - 1), *style, *feat);
                assert(r.0.push(now[j - 1]) + before.skip(j as int) =~= r.0 + now.skip(j - 1));
            }
            j -= 1;
        }
    }
    proof {
        if !lstop {
            assert(oline.take(0) =~= Seq::<Code>::empty());
            assert(line_view(line@).skip(0) =~= line_view(line@));
            assert(Seq::<Code>::empty() + line_view(line@) =~= line_view(line@));
        }
    }
    lstop
}

pub open spec fn lines_view(lines: Seq<Vec<RichTextCode>>) -> Seq<Seq<Code>> {
    lines.map_values(|l: Vec<RichTextCode>| line_view(l@))
}

/// Restyles the trailing codes of a text in place; see [`restyle_lines`].
fn restyle_lines_exec(lines: &mut Vec<Vec<RichTextCode>>, style: &RichTextStyle, feat: &mut FinishedFeatures)
    ensures
        (lines_view(final(lines)@), *final(feat)) == restyle_lines(lines_view(old(lines)@), *style, *old(feat)),
{
    let ghost orig = lines_view(lines@);
    let ghost f0 = *feat;
    let mut k = lines.len();
    let mut stopped = false;
    proof {
        let (p, f) = restyle_lines(orig, *style, f0);
        assert(orig.take(k as int) =~= orig);
        assert(lines_view(lines@).skip(k as int) =~= Seq::<Seq<Code>>::empty());
        assert(p + lines_view(lines@).skip(k as int) =~= p);
    }
    while k > 0 && !stopped
        invariant
            k <= lines@.len(),
            lines@.len() == orig.len(),
            !stopped ==> lines_view(lines@).take(k as int) == orig.take(k as int),
            !stopped ==> restyle_lines(orig, *style, f0)
                == ({
                    let (p, f) = restyle_lines(orig.take(k as int), *style, *feat);
                    (p + lines_view(lines@).skip(k as int), f)
                }),
            stopped ==> restyle_lines(orig, *style, f0) == (lines_view(lines@), *feat),
        decreases k * 2 + (if stopped { 0int } else { 1int }),
    {
        let ghost before_lines = lines_view(lines@);
        let ghost fb = *feat;
        let mut line: Vec<RichTextCode> = Vec::new();
        std::mem::swap(&mut line, &mut lines[k - 1]);
        let ghost oline = line_view(line@);
        assert(oline == orig[k - 1]);
        let lstop = restyle_line_exec(&mut line, style, feat);
        let ghost newline = line_view(line@);
        let ghost mid = lines@;
        std::mem::swap(&mut line, &mut lines[k - 1]);
        assert(lines@ == mid.update(k - 1, lines@[k - 1]));
        assert(lines_view(lines@) =~= before_lines.update(k - 1, newline));
        let ghost pre = orig.take(k as int);
        assert(pre.drop_last() =~= orig.take(k - 1));
        assert(pre.last() == oline);
        assert(lines_view(lines@).take(k - 1) =~= orig.take(k - 1));
        assert(lines_view(lines@).skip(k - 1) =~= seq![newline] + before_lines.skip(k as int));
        if lstop {
            stopped = true;
            assert(lines_view(lines@) =~= orig.take(k - 1).push(newline) + before_lines.skip(k as int));
        } else {
            let ghost r = restyle_lines(orig.take(k - 1), *style, *feat);
            assert(r.0.push(newline) + before_lines.skip(k as int) =~= r.0 + lines_view(lines@).skip(k - 1));
            k -= 1;
        }
    }
    proof {
        if !stopped {
            assert(orig.take(0) =~= Seq::<Seq<Code>>::empty());
            assert(lines_view(lines@).skip(0) =~= lines_view(lines@));
            assert(Seq::<Seq<Code>>::empty() + lines_view(lines@) =~= lines_view(lines@));
        }
    }
}

fn push_missing_codes(line: &mut Vec<RichTextCode>, style: &RichTextStyle, feat: &FinishedFeatures)
    ensures
        line_view(final(line)@) == line_view(old(line)@) + missing_codes(*style, *feat),
{
    let ghost l0 = line_view(line@);
    if !feat.font_style {
        line.push(RichTextCode::FontStyle(style.font_style));
    }
    if !feat.font_weight {
        line.push(RichTextCode::FontWeight(style.font_weight));
    }
    if !feat.text_decoration {
        line.push(RichTextCode::TextDecoration(style.text_decoration));
    }
    if !feat.foreground {
        line.push(RichTextCode::Foreground(style.foreground));
    }
    if !feat.background {
        line.push(RichTextCode::Background(style.background));
    }
    assert(line_view(line@) =~= l0 + missing_codes(*style, *feat));
}

/// The character that stands for a control character: DEL is shown as
/// U+2421, the others as the symbol U+2400 + their code.
pub open spec fn control_symbol(c: char) -> char {
    if c == '\x7F' { '\u{2421}' } else { ((c as u32) + 0x2400) as char }
}

/// The text run of the characters `t[a..b]`.
pub open spec fn run_code(t: Seq<char>, ws: Seq<i32>, a: int, b: int) -> Code {
    Code::Text { text: t.subrange(a, b), width: visible_width(ws.subrange(a, b)) }
}

/// State while plain text is appended: the lines, the width of the widest
/// finished line, the width of the current line and the start of the run
/// of ordinary characters not yet added.
pub ghost struct TextState {
    pub lines: Seq<Seq<Code>>,
    pub width: nat,
    pub line_width: nat,
    pub prev: int,
}

/// Adds the pending run `t[prev..i]`, where it is not empty.
pub open spec fn flush_run(st: TextState, t: Seq<char>, ws: Seq<i32>, i: int) -> TextState {
    if st.prev < i {
        TextState {
            lines: append_to_last(st.lines, seq![run_code(t, ws, st.prev, i)]),
            line_width: st.line_width + visible_width(ws.subrange(st.prev, i)),
            ..st
        }
    } else {
        st
    }
}

/// The codes that show the control character `c` in `style`.
pub open spec fn control_codes(style: RichTextStyle, c: char) -> Seq<Code> {
    diff_codes(style, control_style()) + seq![Code::Text { text: seq![control_symbol(c)], width: 1 }]
        + diff_codes(control_style(), style)
}

/// Character `i` of the text: an ordinary one joins the pending run; a
/// control character ends it, and then a line feed starts a new line and
/// any other control character is shown by its symbol.
pub open spec fn text_step(st: TextState, t: Seq<char>, ws: Seq<i32>, style: RichTextStyle, i: int) -> TextState {
    if !spec_is_ascii_control(t[i]) {
        st
    } else {
        let s1 = flush_run(st, t, ws, i);
        if t[i] == '\n' {
            TextState {
                lines: s1.lines.push(Seq::<Code>::empty()),
                width: if s1.line_width > s1.width { s1.line_width } else { s1.width },
                line_width: 0,
                prev: i + 1,
            }
        } else {
            TextState {
                lines: append_to_last(s1.lines, control_codes(style, t[i])),
                width: s1.width,
                line_width: s1.line_width + 1,
                prev: i + 1,
            }
        }
    }
}

/// The state after the first `n` characters.
pub open spec fn text_run(st0: TextState, t: Seq<char>, ws: Seq<i32>, style: RichTextStyle, n: int) -> TextState
    decreases n,
{
    if n <= 0 {
        st0
    } else {
        text_step(text_run(st0, t, ws, style, n - 1), t, ws, style, n - 1)
    }
}

/// Adds the last run, which updates the width, and switches back to the
/// default style.
pub open spec fn text_finish(st: TextState, t: Seq<char>, ws: Seq<i32>, style: RichTextStyle) -> (Seq<Seq<Code>>, nat) {
    if st.prev < t.len() {
        let lw = st.line_width + visible_width(ws.subrange(st.prev, t.len() as int));
        (
            append_to_last(append_to_last(st.lines, seq![run_code(t, ws, st.prev, t.len() as int)]), diff_codes(style, default_style())),
            if lw > st.width { lw } else { st.width },
        )
    } else {
        (append_to_last(st.lines, diff_codes(style, default_style())), st.width)
    }
}

/// Lines and width after `t` (with widths `ws`) is appended in `style`.
pub open spec fn append_text_result(lines: Seq<Seq<Code>>, width: nat, style: RichTextStyle, t: Seq<char>, ws: Seq<i32>) -> (Seq<Seq<Code>>, nat) {
    let l0 = style_lines(lines, style);
    let st0 = TextState { lines: l0, width, line_width: line_width_spec(l0.last()), prev: 0 };
    text_finish(text_run(st0, t, ws, style, t.len() as int), t, ws, style)
}

/// The codes that show a control character take one column.
pub proof fn lemma_control_codes_width(style: RichTextStyle, c: char)
    ensures
        line_width_spec(control_codes(style, c)) == 1,
{
    let a = diff_codes(style, control_style());
    let b = seq![Code::Text { text: seq![control_symbol(c)], width: 1 }];
    let d = diff_codes(control_style(), style);
    lemma_line_width_concat(a + b, d);
    lemma_line_width_concat(a, b);
    lemma_diff_width(style, control_style());
    lemma_diff_width(control_style(), style);
    assert(b.drop_last() =~= Seq::<Code>::empty());
    assert(line_width_spec(b) == 1) by {
        reveal_with_fuel(line_width_spec, 2);
    }
}

/// Width of the last line, zero where there is none.
pub open spec fn last_line_width(lines: Seq<Seq<Code>>) -> nat {
    if lines.len() > 0 { line_width_spec(lines.last()) } else { 0 }
}

/// Room for the text: the current last line plus two columns for every
/// character fits in a `usize`.
pub open spec fn room_for(lines: Seq<Seq<Code>>, n: nat) -> bool {
    last_line_width(lines) + 2 * n <= usize::MAX
}

#[verifier::rlimit(40)]
proof fn lemma_style_lines_last(lines: Seq<Seq<Code>>, style: RichTextStyle)
    ensures
        style_lines(lines, style).len() > 0,
        line_width_spec(style_lines(lines, style).last()) == (if lines.len() > 0 { line_width_spec(lines.last()) } else { 0 }),
{
    if lines.len() == 0 {
        lemma_diff_width(default_style(), style);
    } else if style != default_style() {
        lemma_restyle_lines_len(lines, style, initial_features(style));
        let (l2, f) = restyle_lines(lines, style, initial_features(style));
        if !f.all() {
            lemma_line_width_concat(l2.last(), missing_codes(style, f));
            reveal_with_fuel(line_width_spec, 6);
        }
    }
}

proof fn lemma_valid_subrange(ws: Seq<i32>, a: int, b: int)
    requires
        valid_widths(ws),
        0 <= a <= b <= ws.len(),
    ensures
        valid_widths(ws.subrange(a, b)),
        visible_width(ws.subrange(a, b)) <= 2 * (b - a),
{
    assert forall|i: int| 0 <= i < ws.subrange(a, b).len() implies -1 <= #[trigger] ws.subrange(a, b)[i] <= 2 by {
        assert(ws.subrange(a, b)[i] == ws[a + i]);
    }
    lemma_visible_width_bound(ws.subrange(a, b));
}

/// Rich text: lines of style changes and text runs, and the width of the
/// widest line.
#[derive(Debug)]
pub struct RichText {
    pub lines: Vec<Vec<RichTextCode>>,
    pub width: usize,
}

impl RichText {
    /// The lines, with their codes.
    pub open spec fn lines_v(&self) -> Seq<Seq<Code>> {
        lines_view(self.lines@)
    }

    pub fn new() -> (r: Self)
        ensures
            r.lines_v() == Seq::<Seq<Code>>::empty(),
            r.width == 0,
    {
        let r = RichText { lines: Vec::new(), width: 0 };
        assert(r.lines_v() =~= Seq::<Seq<Code>>::empty());
        r
    }

    pub fn width(&self) -> (r: usize)
        ensures
            r == self.width,
    {
        self.width
    }

    pub fn height(&self) -> (r: usize)
        ensures
            r == self.lines_v().len(),
    {
        self.lines.len()
    }

    pub fn lines(&self) -> (r: &[Vec<RichTextCode>])
        ensures
            r@ == self.lines@,
    {
        self.lines.as_slice()
    }

    pub fn into_inner(self) -> (r: Vec<Vec<RichTextCode>>)
        ensures
            r@ == self.lines@,
    {
        self.lines
    }

    /// Adds an empty line.
    pub fn append_line(&mut self)
        ensures
            final(self).lines_v() == old(self).lines_v().push(Seq::<Code>::empty()),
            final(self).width == old(self).width,
    {
        let v: Vec<RichTextCode> = Vec::new();
        assert(line_view(v@) =~= Seq::<Code>::empty());
        self.lines.push(v);
        assert(self.lines_v() =~= old(self).lines_v().push(Seq::<Code>::empty()));
    }

    /// Adds `count` empty lines.
    pub fn append_lines(&mut self, count: usize)
        ensures
            final(self).lines_v() == old(self).lines_v() + Seq::new(count as nat, |i: int| Seq::<Code>::empty()),
            final(self).width == old(self).width,
    {
        let mut k: usize = 0;
        while k < count
            invariant
                k <= count,
                self.lines_v() == old(self).lines_v() + Seq::new(k as nat, |i: int| Seq::<Code>::empty()),
                self.width == old(self).width,
            decreases count - k,
        {
            self.append_line();
            assert(self.lines_v() =~= old(self).lines_v() + Seq::new((k + 1) as nat, |i: int| Seq::<Code>::empty()));
            k += 1;
        }
    }

    /// Removes every line.
    pub fn clear(&mut self)
        ensures
            final(self).lines_v() == Seq::<Seq<Code>>::empty(),
            final(self).width == 0,
    {
        self.lines.clear();
        self.width = 0;
        assert(self.lines_v() =~= Seq::<Seq<Code>>::empty());
    }

    /// Adds copies of the lines of `other`; the width becomes the larger
    /// of the two.
    pub fn append(&mut self, other: &RichText)
        ensures
            final(self).lines_v() == old(self).lines_v() + other.lines_v(),
            final(self).width == if other.width > old(self).width { other.width } else { old(self).width },
    {
        let mut i: usize = 0;
        while i < other.lines.len()
            invariant
                i <= other.lines@.len(),
                self.lines_v() == old(self).lines_v() + other.lines_v().take(i as int),
                self.width == old(self).width,
            decreases other.lines.len() - i,
        {
            let mut line: Vec<RichTextCode> = Vec::new();
            assert(line_view(line@) =~= Seq::<Code>::empty());
            extend_codes(&mut line, other.lines[i].as_slice());
            assert(line_view(line@) =~= other.lines_v()[i as int]);
            let ghost prev = self.lines_v();
            self.lines.push(line);
            assert(self.lines_v() =~= prev.push(other.lines_v()[i as int]));
            assert(self.lines_v() =~= old(self).lines_v() + other.lines_v().take(i + 1));
            i += 1;
        }
        assert(other.lines_v().take(i as int) =~= other.lines_v());
        if other.width > self.width {
            self.width = other.width;
        }
    }

    /// Switches the end of the text to `style`; see [`style_lines`].
    fn append_style(&mut self, style: &RichTextStyle)
        ensures
            final(self).lines_v() == style_lines(old(self).lines_v(), *style),
            final(self).width == old(self).width,
    {
        if self.lines.len() == 0 {
            let mut line: Vec<RichTextCode> = Vec::new();
            let d = default_style_value();
            d.diff(style, &mut line);
            self.lines.push(line);
            assert(self.lines_v() =~= seq![diff_codes(default_style(), *style)]);
            return;
        }
        if style.is_default() {
            return;
        }
        let mut feat = FinishedFeatures {
            font_style: style.font_style == FontStyle::Normal,
            font_weight: style.font_weight == FontWeight::Normal,
            text_decoration: style.text_decoration == TextDecoration::Plain,
            foreground: style.foreground == Color::Default,
            background: style.background == Color::Default,
        };
        let ghost orig = self.lines_v();
        assert(feat == initial_features(*style));
        restyle_lines_exec(&mut self.lines, style, &mut feat);
        proof {
            lemma_restyle_lines_len(orig, *style, initial_features(*style));
        }
        let ghost mid = self.lines_v();
        let ghost fm = feat;
        if !feat.is_all() {
            let last = self.lines.len() - 1;
            let mut line: Vec<RichTextCode> = Vec::new();
            std::mem::swap(&mut line, &mut self.lines[last]);
            let ghost l0 = line_view(line@);
            push_missing_codes(&mut line, style, &feat);
            let ghost l1 = line_view(line@);
            let ghost mid2 = self.lines@;
            std::mem::swap(&mut line, &mut self.lines[last]);
            assert(self.lines@ == mid2.update(last as int, self.lines@[last as int]));
            assert(self.lines_v() =~= append_to_last(mid, missing_codes(*style, feat)));
        }
        proof {
            let (l2, f) = restyle_lines(old(self).lines_v(), *style, initial_features(*style));
            assert(l2 == mid && f == fm);
        }
    }

    /// Appends plain text in the default style.
    pub fn append_plain_text(&mut self, plain_text: &str, widths: &[i32])
        requires
            widths@.len() == plain_text@.len(),
            valid_widths(widths@),
            room_for(old(self).lines_v(), plain_text@.len()),
        ensures
            (final(self).lines_v(), final(self).width as nat)
                == append_text_result(old(self).lines_v(), old(self).width as nat, default_style(), plain_text@, widths@),
            last_line_width(final(self).lines_v()) <= last_line_width(old(self).lines_v()) + 2 * plain_text@.len(),
    {
        let style = default_style_value();
        self.append_text(&style, plain_text, widths);
    }

    /// Appends `plain_text` in `style`: control characters are shown by
    /// their symbols in the control style, line feeds start new lines, and
    /// the text ends in the default style.
    pub fn append_text(&mut self, style: &RichTextStyle, plain_text: &str, widths: &[i32])
        requires
            widths@.len() == plain_text@.len(),
            valid_widths(widths@),
            room_for(old(self).lines_v(), plain_text@.len()),
        ensures
            (final(self).lines_v(), final(self).width as nat)
                == append_text_result(old(self).lines_v(), old(self).width as nat, *style, plain_text@, widths@),
            last_line_width(final(self).lines_v()) <= last_line_width(old(self).lines_v()) + 2 * plain_text@.len(),
    {
        let chars = to_chars(plain_text);
        self.append_chars(style, chars.as_slice(), widths);
    }

    /// Appends the characters `t` in `style`; see [`append_text_result`].
    pub fn append_chars(&mut self, style: &RichTextStyle, t: &[char], widths: &[i32])
        requires
            widths@.len() == t@.len(),
            valid_widths(widths@),
            room_for(old(self).lines_v(), t@.len()),
        ensures
            (final(self).lines_v(), final(self).width as nat)
                == append_text_result(old(self).lines_v(), old(self).width as nat, *style, t@, widths@),
            last_line_width(final(self).lines_v()) <= last_line_width(old(self).lines_v()) + 2 * t@.len(),
    {
        let ghost ts = t@;
        let ghost ws = widths@;
        self.append_style(style);
        proof {
            lemma_style_lines_last(old(self).lines_v(), *style);
        }
        let ghost l0 = self.lines_v();
        let ghost lw0 = line_width_spec(l0.last());
        let ghost st0 = TextState { lines: l0, width: self.width as nat, line_width: lw0, prev: 0 };
        let mut line = self.lines.pop().unwrap();
        assert(lines_view(self.lines@).push(line_view(line@)) =~= l0);
        let mut line_width = line_width(line.as_slice());
        let mut prev: usize = 0;
        let control = control_style_value();
        let n = t.len();
        let mut i: usize = 0;
        while i < n
            invariant
                n == ts.len(),
                ts == t@,
                ws == widths@,
                ws.len() == n,
                valid_widths(ws),
                i <= n,
                prev <= i,
                lw0 + 2 * n <= usize::MAX,
                line_width <= lw0 + 2 * prev,
                line_width == line_width_spec(line_view(line@)),
                control == control_style(),
                ({
                    let st = text_run(st0, ts, ws, *style, i as int);
                    &&& st.lines == lines_view(self.lines@).push(line_view(line@))
                    &&& st.width == self.width
                    &&& st.line_width == line_width
                    &&& st.prev == prev
                }),
            decreases n - i,
        {
            let ch = t[i];
            let ghost st = text_run(st0, ts, ws, *style, i as int);
            assert(text_run(st0, ts, ws, *style, i + 1) == text_step(st, ts, ws, *style, i as int));
            if is_ascii_control(ch) {
                if prev < i {
                    let text = string_from_chars(t, prev, i);
                    proof {
                        lemma_valid_subrange(ws, prev as int, i as int);
                    }
                    let text_width = wcswidth_ignore_unprintable(vstd::slice::slice_subrange(widths, prev, i));
                    line_width = line_width + text_width;
                    let ghost before = lines_view(self.lines@).push(line_view(line@));
                    let ghost lb = line_view(line@);
                    let code = RichTextCode::Text { text, width: text_width };
                    assert(code@ == run_code(ts, ws, prev as int, i as int));
                    line.push(code);
                    assert(line_view(line@) =~= lb.push(run_code(ts, ws, prev as int, i as int)));
                    assert(lb + seq![run_code(ts, ws, prev as int, i as int)] =~= lb.push(run_code(ts, ws, prev as int, i as int)));
                    assert(lines_view(self.lines@).push(line_view(line@)) =~= append_to_last(before, seq![run_code(ts, ws, prev as int, i as int)]));
                    proof {
                        lemma_line_width_push(lb, run_code(ts, ws, prev as int, i as int));
                    }
                }
                let ghost s1 = flush_run(st, ts, ws, i as int);
                if ch == '\n' {
                    if line_width > self.width {
                        self.width = line_width;
                    }
                    line_width = 0;
                    let mut fresh: Vec<RichTextCode> = Vec::new();
                    std::mem::swap(&mut fresh, &mut line);
                    self.lines.push(fresh);
                    assert(line_view(line@) =~= Seq::<Code>::empty());
                    assert(lines_view(self.lines@).push(line_view(line@)) =~= s1.lines.push(Seq::<Code>::empty()));
                } else {
                    line_width = line_width + 1;
                    let ghost before = lines_view(self.lines@).push(line_view(line@));
                    let ghost lb = line_view(line@);
                    style.diff(&control, &mut line);
                    let sym = if ch == '\x7F' {
                        '\u{2421}'
                    } else {
                        match char_from_u32((ch as u32) + 0x2400) {
                            Some(c) => c,
                            None => ' ',
                        }
                    };
                    let mut sym_text = String::new();
                    push_char(&mut sym_text, sym);
                    assert(sym_text@ =~= seq![control_symbol(ch)]);
                    let ghost l1 = line_view(line@);
                    let code = RichTextCode::Text { text: sym_text, width: 1 };
                    assert(code@ == Code::Text { text: seq![control_symbol(ch)], width: 1 });
                    line.push(code);
                    let ghost l2 = line_view(line@);
                    assert(l2 =~= l1.push(Code::Text { text: seq![control_symbol(ch)], width: 1 }));
                    control.diff(style, &mut line);
                    assert(line_view(line@) =~= lb + control_codes(*style, ch));
                    proof {
                        lemma_line_width_concat(lb, control_codes(*style, ch));
                        lemma_control_codes_width(*style, ch);
                    }
                    assert(lines_view(self.lines@).push(line_view(line@)) =~= append_to_last(before, control_codes(*style, ch)));
                }
                prev = i + 1;
            }
            i += 1;
        }
        let ghost st = text_run(st0, ts, ws, *style, n as int);
        if prev < n {
            let text = string_from_chars(t, prev, n);
            proof {
                lemma_valid_subrange(ws, prev as int, n as int);
            }
            let text_width = wcswidth_ignore_unprintable(vstd::slice::slice_subrange(widths, prev, n));
            line_width = line_width + text_width;
            if line_width > self.width {
                self.width = line_width;
            }
            let ghost before = lines_view(self.lines@).push(line_view(line@));
            let ghost lb = line_view(line@);
            let code = RichTextCode::Text { text, width: text_width };
            assert(code@ == run_code(ts, ws, prev as int, n as int));
            line.push(code);
            assert(line_view(line@) =~= lb.push(run_code(ts, ws, prev as int, n as int)));
            assert(lb + seq![run_code(ts, ws, prev as int, n as int)] =~= lb.push(run_code(ts, ws, prev as int, n as int)));
            assert(lines_view(self.lines@).push(line_view(line@)) =~= append_to_last(before, seq![run_code(ts, ws, prev as int, n as int)]));
            proof {
                lemma_line_width_push(lb, run_code(ts, ws, prev as int, n as int));
            }
        }
        let ghost before = lines_view(self.lines@).push(line_view(line@));
        let ghost pre_line = line_view(line@);
        let d = default_style_value();
        style.diff(&d, &mut line);
        proof {
            lemma_line_width_concat(pre_line, diff_codes(*style, default_style()));
            lemma_diff_width(*style, default_style());
        }
        let ghost fin_line = line_view(line@);
        self.lines.push(line);
        assert(self.lines_v().last() == fin_line);
        assert(self.lines_v() =~= append_to_last(before, diff_codes(*style, default_style())));
    }
}

} // verus!

verus! {

/// Appends to `line` the codes that show the control character `ch` in
/// `style`; see [`control_codes`].
pub fn push_control_codes(line: &mut Vec<RichTextCode>, style: &RichTextStyle, ch: char)
    requires
        spec_is_ascii_control(ch),
    ensures
        line_view(final(line)@) == line_view(old(line)@) + control_codes(*style, ch),
{
    let control = control_style_value();
    let ghost lb = line_view(line@);
    style.diff(&control, line);
    let sym = if ch == '\x7F' {
        '\u{2421}'
    } else {
        match char_from_u32((ch as u32) + 0x2400) {
            Some(c) => c,
            None => ' ',
        }
    };
    let mut sym_text = String::new();
    push_char(&mut sym_text, sym);
    assert(sym_text@ =~= seq![control_symbol(ch)]);
    let ghost l1 = line_view(line@);
    let code = RichTextCode::Text { text: sym_text, width: 1 };
    assert(code@ == Code::Text { text: seq![control_symbol(ch)], width: 1 });
    line.push(code);
    let ghost l2 = line_view(line@);
    assert(l2 =~= l1.push(Code::Text { text: seq![control_symbol(ch)], width: 1 }));
    control.diff(style, line);
    assert(line_view(line@) =~= lb + control_codes(*style, ch));
}

// ---------------------------------------------------------------------------
// The style in which a text ends
// ---------------------------------------------------------------------------

/// The style at the end of `lines`, drawn from `style`: the codes of each
/// line applied in turn.
pub open spec fn lines_style(style: RichTextStyle, lines: Seq<Seq<Code>>) -> RichTextStyle
    decreases lines.len(),
{
    if lines.len() == 0 { style } else { apply_codes(lines_style(style, lines.drop_last()), lines.last()) }
}

/// The attributes finished in `g` that were not finished in `f`.
pub open spec fn newly_finished(f: FinishedFeatures, g: FinishedFeatures) -> FinishedFeatures {
    FinishedFeatures {
        font_style: g.font_style && !f.font_style,
        font_weight: g.font_weight && !f.font_weight,
        text_decoration: g.text_decoration && !f.text_decoration,
        foreground: g.foreground && !f.foreground,
        background: g.background && !f.background,
    }
}

/// Every attribute finished in `f` is finished in `g`.
pub open spec fn features_within(f: FinishedFeatures, g: FinishedFeatures) -> bool {
    &&& f.font_style ==> g.font_style
    &&& f.font_weight ==> g.font_weight
    &&& f.text_decoration ==> g.text_decoration
    &&& f.foreground ==> g.foreground
    &&& f.background ==> g.background
}

/// `s` with the attributes marked in `n` taken from `style`.
pub open spec fn override_style(s: RichTextStyle, style: RichTextStyle, n: FinishedFeatures) -> RichTextStyle {
    RichTextStyle {
        font_weight: if n.font_weight { style.font_weight } else { s.font_weight },
        text_decoration: if n.text_decoration { style.text_decoration } else { s.text_decoration },
        font_style: if n.font_style { style.font_style } else { s.font_style },
        foreground: if n.foreground { style.foreground } else { s.foreground },
        background: if n.background { style.background } else { s.background },
    }
}

/// `a` and `b` agree on every attribute not marked in `f`.
pub open spec fn agree_outside(a: RichTextStyle, b: RichTextStyle, f: FinishedFeatures) -> bool {
    &&& !f.font_weight ==> a.font_weight == b.font_weight
    &&& !f.text_decoration ==> a.text_decoration == b.text_decoration
    &&& !f.font_style ==> a.font_style == b.font_style
    &&& !f.foreground ==> a.foreground == b.foreground
    &&& !f.background ==> a.background == b.background
}

/// The attributes not marked in `f`.
pub open spec fn unfinished(f: FinishedFeatures) -> FinishedFeatures {
    FinishedFeatures {
        font_style: !f.font_style,
        font_weight: !f.font_weight,
        text_decoration: !f.text_decoration,
        foreground: !f.foreground,
        background: !f.background,
    }
}

proof fn lemma_apply_push(x: RichTextStyle, codes: Seq<Code>, c: Code)
    ensures
        apply_codes(x, codes.push(c)) == apply_codes(apply_codes(x, codes), seq![c]),
{
    lemma_apply_codes_concat(x, codes, seq![c]);
    assert(codes + seq![c] =~= codes.push(c));
}

proof fn lemma_apply_text(x: RichTextStyle, c: Code)
    requires
        c is Text,
    ensures
        apply_codes(x, seq![c]) == x,
{
    assert(seq![c].drop_last() =~= Seq::<Code>::empty());
    reveal_with_fuel(apply_codes, 2);
}

/// One trailing code restyled: the style after it changes as the
/// attribute it finishes says, also where later attributes were finished
/// before it.
proof fn lemma_restyle_code_style(c: Code, style: RichTextStyle, f: FinishedFeatures, y: RichTextStyle, g: FinishedFeatures)
    requires
        !(c is Text),
        features_within(restyle_code(c, style, f).1, g),
    ensures
        features_within(f, restyle_code(c, style, f).1),
        agree_outside(apply_codes(y, seq![c]), y, restyle_code(c, style, f).1),
        apply_codes(override_style(y, style, newly_finished(restyle_code(c, style, f).1, g)), seq![restyle_code(c, style, f).0])
            == override_style(apply_codes(y, seq![c]), style, newly_finished(f, g)),
{
    let (c2, f1) = restyle_code(c, style, f);
    assert(seq![c].drop_last() =~= Seq::<Code>::empty());
    assert(seq![c2].drop_last() =~= Seq::<Code>::empty());
    reveal_with_fuel(apply_codes, 2);
}

/// Restyling a line changes, of the style it ends in, the attributes it
/// finishes, to the new style's; a line walked to its start holds no code
/// for an attribute left unfinished.
#[verifier::rlimit(30)]
proof fn lemma_restyle_line_style(line: Seq<Code>, style: RichTextStyle, f: FinishedFeatures, x: RichTextStyle)
    ensures
        ({
            let (l2, f2, stop) = restyle_line(line, style, f);
            &&& features_within(f, f2)
            &&& apply_codes(x, l2) == override_style(apply_codes(x, line), style, newly_finished(f, f2))
            &&& !stop ==> agree_outside(apply_codes(x, line), x, f2)
        }),
    decreases line.len(),
{
    if line.len() > 0 && !(line.last() is Text) {
        let c = line.last();
        let (c2, f1) = restyle_code(c, style, f);
        let y = apply_codes(x, line.drop_last());
        lemma_apply_push(x, line.drop_last(), c);
        assert(line.drop_last().push(c) =~= line);
        if f1.all() {
            lemma_restyle_code_style(c, style, f, y, f1);
            let l2 = line.drop_last().push(c2);
            lemma_apply_push(x, line.drop_last(), c2);
            assert(override_style(y, style, newly_finished(f1, f1)) == y);
        } else {
            lemma_restyle_line_style(line.drop_last(), style, f1, x);
            let (rest, f3, stop) = restyle_line(line.drop_last(), style, f1);
            lemma_restyle_code_style(c, style, f, y, f3);
            lemma_apply_push(x, rest, c2);
        }
    }
}

/// Restyling the lines changes, of the style the text ends in, the
/// attributes it finishes, to the new style's.
proof fn lemma_restyle_lines_style(lines: Seq<Seq<Code>>, style: RichTextStyle, f: FinishedFeatures, x: RichTextStyle)
    ensures
        ({
            let (l2, f2) = restyle_lines(lines, style, f);
            &&& features_within(f, f2)
            &&& lines_style(x, l2) == override_style(lines_style(x, lines), style, newly_finished(f, f2))
        }),
    decreases lines.len(),
{
    if lines.len() > 0 {
        let last = lines.last();
        let x0 = lines_style(x, lines.drop_last());
        lemma_restyle_line_style(last, style, f, x0);
        let (l2, f2, stop) = restyle_line(last, style, f);
        if stop {
            let r = lines.drop_last().push(l2);
            assert(r.drop_last() =~= lines.drop_last());
        } else {
            lemma_restyle_lines_style(lines.drop_last(), style, f2, x);
            let (rest, f3) = restyle_lines(lines.drop_last(), style, f2);
            let r = rest.push(l2);
            assert(r.drop_last() =~= rest);
            let x1 = lines_style(x, rest);
            lemma_restyle_line_style(last, style, f, x1);
            last_code_wins(x0, last);
            last_code_wins(x1, last);
        }
    }
}

proof fn lemma_lines_style_append_to_last(x: RichTextStyle, lines: Seq<Seq<Code>>, cs: Seq<Code>)
    requires
        lines.len() > 0,
    ensures
        lines_style(x, append_to_last(lines, cs)) == apply_codes(lines_style(x, lines), cs),
        append_to_last(lines, cs).len() == lines.len(),
{
    let l2 = append_to_last(lines, cs);
    assert(l2.drop_last() =~= lines.drop_last());
    lemma_apply_codes_concat(lines_style(x, lines.drop_last()), lines.last(), cs);
}

proof fn lemma_lines_style_push(x: RichTextStyle, lines: Seq<Seq<Code>>, l: Seq<Code>)
    ensures
        lines_style(x, lines.push(l)) == apply_codes(lines_style(x, lines), l),
{
    assert(lines.push(l).drop_last() =~= lines);
}

proof fn lemma_missing_codes_style(s: RichTextStyle, style: RichTextStyle, f: FinishedFeatures)
    ensures
        apply_codes(s, missing_codes(style, f)) == override_style(s, style, unfinished(f)),
{
    let a = (if !f.font_style { seq![Code::FontStyle(style.font_style)] } else { seq![] });
    let b = (if !f.font_weight { seq![Code::FontWeight(style.font_weight)] } else { seq![] });
    let c = (if !f.text_decoration { seq![Code::TextDecoration(style.text_decoration)] } else { seq![] });
    let d = (if !f.foreground { seq![Code::Foreground(style.foreground)] } else { seq![] });
    let e = (if !f.background { seq![Code::Background(style.background)] } else { seq![] });
    lemma_apply_codes_concat(s, a + b + c + d, e);
    lemma_apply_codes_concat(s, a + b + c, d);
    lemma_apply_codes_concat(s, a + b, c);
    lemma_apply_codes_concat(s, a, b);
    reveal_with_fuel(apply_codes, 2);
}

/// Switching a text that ends in the default style to `style` makes it end
/// in `style`; the number of lines stays, and is one for an empty text.
proof fn lemma_style_lines_style(lines: Seq<Seq<Code>>, style: RichTextStyle)
    requires
        lines.len() == 0 || lines_style(default_style(), lines) == default_style(),
    ensures
        lines_style(default_style(), style_lines(lines, style)) == style,
        style_lines(lines, style).len() == (if lines.len() > 0 { lines.len() } else { 1 }),
{
    if lines.len() == 0 {
        let l = seq![diff_codes(default_style(), style)];
        assert(l.drop_last() =~= Seq::<Seq<Code>>::empty());
        diff_then_apply(default_style(), style);
        reveal_with_fuel(lines_style, 2);
    } else if style != default_style() {
        let f0 = initial_features(style);
        lemma_restyle_lines_style(lines, style, f0, default_style());
        lemma_restyle_lines_len(lines, style, f0);
        let (l2, f) = restyle_lines(lines, style, f0);
        assert(lines_style(default_style(), l2) == override_style(default_style(), style, newly_finished(f0, f)));
        if !f.all() {
            lemma_lines_style_append_to_last(default_style(), l2, missing_codes(style, f));
            lemma_missing_codes_style(lines_style(default_style(), l2), style, f);
            assert(style_lines(lines, style) == append_to_last(l2, missing_codes(style, f)));
        } else {
            assert(style_lines(lines, style) == l2);
        }
    }
}

/// Appending the characters keeps the style the text ends in, and adds a
/// line for each line feed.
proof fn lemma_text_run_style(st0: TextState, t: Seq<char>, ws: Seq<i32>, style: RichTextStyle, n: int)
    requires
        st0.lines.len() > 0,
        lines_style(default_style(), st0.lines) == style,
        0 <= n <= t.len(),
    ensures
        text_run(st0, t, ws, style, n).lines.len() == st0.lines.len() + crate::parse_error::count_newlines(t, n),
        lines_style(default_style(), text_run(st0, t, ws, style, n).lines) == style,
    decreases n,
{
    if n > 0 {
        lemma_text_run_style(st0, t, ws, style, n - 1);
        let st = text_run(st0, t, ws, style, n - 1);
        let i = n - 1;
        if spec_is_ascii_control(t[i]) {
            let s1 = flush_run(st, t, ws, i);
            if st.prev < i {
                let run = seq![run_code(t, ws, st.prev, i)];
                lemma_lines_style_append_to_last(default_style(), st.lines, run);
                lemma_apply_text(style, run_code(t, ws, st.prev, i));
            }
            if t[i] == '\n' {
                lemma_lines_style_push(default_style(), s1.lines, Seq::<Code>::empty());
            } else {
                let a = diff_codes(style, control_style());
                let b = seq![Code::Text { text: seq![control_symbol(t[i])], width: 1 }];
                let d = diff_codes(control_style(), style);
                lemma_lines_style_append_to_last(default_style(), s1.lines, a + b + d);
                lemma_apply_codes_concat(style, a + b, d);
                lemma_apply_codes_concat(style, a, b);
                diff_then_apply(style, control_style());
                diff_then_apply(control_style(), style);
                lemma_apply_text(control_style(), Code::Text { text: seq![control_symbol(t[i])], width: 1 });
            }
        }
    }
}

/// Appending plain text in any style adds a line for each line feed in it,
/// to at least one line; and a text that ended in the default style ends
/// in it again.
pub proof fn append_text_ends_plain(lines: Seq<Seq<Code>>, width: nat, style: RichTextStyle, t: Seq<char>, ws: Seq<i32>)
    requires
        lines.len() == 0 || lines_style(default_style(), lines) == default_style(),
    ensures
        ({
            let r = append_text_result(lines, width, style, t, ws).0;
            &&& r.len() == (if lines.len() > 0 { lines.len() } else { 1 }) + crate::parse_error::count_newlines(t, t.len() as int)
            &&& lines_style(default_style(), r) == default_style()
        }),
{
    lemma_style_lines_style(lines, style);
    let l0 = style_lines(lines, style);
    let st0 = TextState { lines: l0, width, line_width: line_width_spec(l0.last()), prev: 0 };
    lemma_text_run_style(st0, t, ws, style, t.len() as int);
    let st = text_run(st0, t, ws, style, t.len() as int);
    if st.prev < t.len() {
        let run = seq![run_code(t, ws, st.prev, t.len() as int)];
        lemma_lines_style_append_to_last(default_style(), st.lines, run);
        lemma_apply_text(style, run_code(t, ws, st.prev, t.len() as int));
        lemma_lines_style_append_to_last(default_style(), append_to_last(st.lines, run), diff_codes(style, default_style()));
    } else {
        lemma_lines_style_append_to_last(default_style(), st.lines, diff_codes(style, default_style()));
    }
    diff_then_apply(style, default_style());
}

} // verus!
