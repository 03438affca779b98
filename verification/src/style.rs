use vstd::prelude::*;
use crate::color::Color;

verus! {

/// Font weight of text.
#[derive(Debug, Clone, Copy, PartialEq, Eq, Structural)]
pub enum FontWeight {
    Normal,
    Bold,
    Faint,
}

/// Underlining of text.
#[derive(Debug, Clone, Copy, PartialEq, Eq, Structural)]
pub enum TextDecoration {
    Plain,
    Underline,
    DoublyUnderline,
}

/// Slant of text.
#[derive(Debug, Clone, Copy, PartialEq, Eq, Structural)]
pub enum FontStyle {
    Normal,
    Italic,
}

/// The escape sequence `ESC [ <digits> m` for a one or two digit SGR
/// parameter.
pub open spec fn sgr_of(n: nat) -> Seq<u8> {
    crate::color::sgr_sequence(n)
}

/// SGR parameter that selects a font weight: 22 normal intensity, 1 bold,
/// 2 faint.
pub open spec fn font_weight_sgr(w: FontWeight) -> nat {
    match w {
        FontWeight::Normal => 22,
        FontWeight::Bold => 1,
        FontWeight::Faint => 2,
    }
}

/// SGR parameter that selects a decoration: 24 no underline (`Plain`), 4 underline,
/// 21 doubly underlined.
pub open spec fn text_decoration_sgr(d: TextDecoration) -> nat {
    match d {
        TextDecoration::Plain => 24,
        TextDecoration::Underline => 4,
        TextDecoration::DoublyUnderline => 21,
    }
}

/// SGR parameter that selects a slant: 23 upright, 3 italic.
pub open spec fn font_style_sgr(s: FontStyle) -> nat {
    match s {
        FontStyle::Normal => 23,
        FontStyle::Italic => 3,
    }
}

fn sgr(n: u8) -> (r: Vec<u8>)
    requires
        n < 100,
    ensures
        r@ == sgr_of(n as nat),
{
    let mut v: Vec<u8> = Vec::new();
    v.push(0x1B);
    v.push(0x5B);
    if n < 10 {
        v.push(48 + n);
    } else {
        v.push(48 + n / 10);
        v.push(48 + n % 10);
    }
    v.push(0x6D);
    assert(v@ =~= sgr_of(n as nat));
    v
}

impl FontWeight {
    pub fn default() -> (r: Self)
        ensures
            r == FontWeight::Normal,
    {
        FontWeight::Normal
    }

    /// The escape sequence that switches the terminal to this weight.
    pub fn write(&self) -> (r: Vec<u8>)
        ensures
            r@ == sgr_of(font_weight_sgr(*self)),
    {
        match self {
            FontWeight::Normal => sgr(22),
            FontWeight::Bold => sgr(1),
            FontWeight::Faint => sgr(2),
        }
    }
}

impl TextDecoration {
    pub fn default() -> (r: Self)
        ensures
            r == TextDecoration::Plain,
    {
        TextDecoration::Plain
    }

    /// The escape sequence that switches the terminal to this decoration.
    pub fn write(&self) -> (r: Vec<u8>)
        ensures
            r@ == sgr_of(text_decoration_sgr(*self)),
    {
        match self {
            TextDecoration::Plain => sgr(24),
            TextDecoration::Underline => sgr(4),
            TextDecoration::DoublyUnderline => sgr(21),
        }
    }
}

impl FontStyle {
    pub fn default() -> (r: Self)
        ensures
            r == FontStyle::Normal,
    {
        FontStyle::Normal
    }

    /// The escape sequence that switches the terminal to this slant.
    pub fn write(&self) -> (r: Vec<u8>)
        ensures
            r@ == sgr_of(font_style_sgr(*self)),
    {
        match self {
            FontStyle::Normal => sgr(23),
            FontStyle::Italic => sgr(3),
        }
    }
}

/// A terminal setting that a widget changes while it draws, and restores
/// afterwards.
#[derive(Debug, Clone, Copy, PartialEq, Eq, Structural)]
pub enum TermIOState {
    Keep,
    DefaultForeground(Color),
    DefaultBackground(Color),
    Inverted(bool),
}

} // verus!
