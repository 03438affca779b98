use vstd::prelude::*;

verus! {

/// The sixteen colours of the classic terminal palette.
#[derive(Debug, Clone, Copy, PartialEq, Eq, Structural)]
pub enum Color16 {
    Black,
    Red,
    Green,
    Yellow,
    Blue,
    Magenta,
    Cyan,
    White,
    BrightBlack,
    BrightRed,
    BrightGreen,
    BrightYellow,
    BrightBlue,
    BrightMagenta,
    BrightCyan,
    BrightWhite,
}

/// Position of a colour in the palette: 0..=7 for the normal colours,
/// 8..=15 for the bright ones.
pub open spec fn palette_index(c: Color16) -> nat {
    match c {
        Color16::Black => 0,
        Color16::Red => 1,
        Color16::Green => 2,
        Color16::Yellow => 3,
        Color16::Blue => 4,
        Color16::Magenta => 5,
        Color16::Cyan => 6,
        Color16::White => 7,
        Color16::BrightBlack => 8,
        Color16::BrightRed => 9,
        Color16::BrightGreen => 10,
        Color16::BrightYellow => 11,
        Color16::BrightBlue => 12,
        Color16::BrightMagenta => 13,
        Color16::BrightCyan => 14,
        Color16::BrightWhite => 15,
    }
}

/// The SGR parameter selecting `c` as foreground colour (30..=37, 90..=97).
pub open spec fn fg_sgr(c: Color16) -> nat {
    let i = palette_index(c);
    if i < 8 { 30 + i } else { (90 + i - 8) as nat }
}

/// The SGR parameter selecting `c` as background colour (40..=47, 100..=107).
pub open spec fn bg_sgr(c: Color16) -> nat {
    fg_sgr(c) + 10
}

/// ASCII digits of a number below 1000, most significant first.
pub open spec fn decimal_digits(n: nat) -> Seq<u8> {
    if n < 10 {
        seq![(48 + n) as u8]
    } else if n < 100 {
        seq![(48 + n / 10) as u8, (48 + n % 10) as u8]
    } else {
        seq![(48 + n / 100) as u8, (48 + (n / 10) % 10) as u8, (48 + n % 10) as u8]
    }
}

/// The escape sequence `ESC [ <n> m`.
pub open spec fn sgr_sequence(n: nat) -> Seq<u8> {
    seq![0x1Bu8, 0x5Bu8] + decimal_digits(n) + seq![0x6Du8]
}

fn sgr_bytes(n: u8) -> (r: Vec<u8>)
    requires
        n < 200,
    ensures
        r@ == sgr_sequence(n as nat),
{
    let mut v: Vec<u8> = Vec::new();
    v.push(0x1B);
    v.push(0x5B);
    if n < 10 {
        v.push(48 + n);
    } else if n < 100 {
        v.push(48 + n / 10);
        v.push(48 + n % 10);
    } else {
        v.push(48 + n / 100);
        v.push(48 + (n / 10) % 10);
        v.push(48 + n % 10);
    }
    v.push(0x6D);
    assert(v@ =~= sgr_sequence(n as nat));
    v
}

impl Color16 {
    fn palette(&self) -> (r: u8)
        ensures
            r as nat == palette_index(*self),
    {
        match *self {
            Color16::Black => 0,
            Color16::Red => 1,
            Color16::Green => 2,
            Color16::Yellow => 3,
            Color16::Blue => 4,
            Color16::Magenta => 5,
            Color16::Cyan => 6,
            Color16::White => 7,
            Color16::BrightBlack => 8,
            Color16::BrightRed => 9,
            Color16::BrightGreen => 10,
            Color16::BrightYellow => 11,
            Color16::BrightBlue => 12,
            Color16::BrightMagenta => 13,
            Color16::BrightCyan => 14,
            Color16::BrightWhite => 15,
        }
    }

    /// Escape sequence that sets this colour as foreground.
    pub fn fg(&self) -> (r: Vec<u8>)
        ensures
            r@ == sgr_sequence(fg_sgr(*self)),
    {
        let i = self.palette();
        let n = if i < 8 { 30 + i } else { 90 + (i - 8) };
        sgr_bytes(n)
    }

    /// Escape sequence that sets this colour as background.
    pub fn bg(&self) -> (r: Vec<u8>)
        ensures
            r@ == sgr_sequence(bg_sgr(*self)),
    {
        let i = self.palette();
        let n = if i < 8 { 40 + i } else { 100 + (i - 8) };
        sgr_bytes(n)
    }
}

/// A 24 bit colour.
#[derive(Debug, Clone, Copy, PartialEq, Eq, Structural)]
pub struct Rgb {
    pub r: u8,
    pub g: u8,
    pub b: u8,
}

impl Rgb {
    pub fn new(r: u8, g: u8, b: u8) -> (c: Self)
        ensures
            c == (Rgb { r, g, b }),
    {
        Rgb { r, g, b }
    }

    /// Splits `0xRRGGBB`.  The green channel is taken from the lowest byte,
    /// as is the blue one.
    pub fn from_u32(color: u32) -> (c: Self)
        ensures
            c.r as int == (color as int / 0x10000) % 0x100,
            c.g as int == color as int % 0x100,
            c.b as int == color as int % 0x100,
    {
        let r = ((color >> 16) & 0xFF) as u8;
        let g = (color & 0xFF) as u8;
        let b = (color & 0xFF) as u8;
        assert(((color >> 16) & 0xFF) as int == (color as int / 0x10000) % 0x100) by (bit_vector);
        assert((color & 0xFF) as int == color as int % 0x100) by (bit_vector);
        Rgb { r, g, b }
    }

    /// Packs the channels as `0xRRGGBB`.
    pub fn to_u32(&self) -> (v: u32)
        ensures
            v as int == self.r as int * 0x10000 + self.g as int * 0x100 + self.b as int,
    {
        let r = self.r;
        let g = self.g;
        let b = self.b;
        assert((((r as u32) << 16u32) | ((g as u32) << 8u32) | (b as u32)) as int
            == r as int * 0x10000 + g as int * 0x100 + b as int) by (bit_vector);
        ((r as u32) << 16) | ((g as u32) << 8) | (b as u32)
    }
}

/// A terminal colour.
#[derive(Debug, Clone, Copy, PartialEq, Eq, Structural)]
pub enum Color {
    Default,
    Rgb { r: u8, g: u8, b: u8 },
    Color16(Color16),
}

impl Color {
    /// Splits `0xRRGGBB`.  The green channel is taken from the lowest byte,
    /// as is the blue one.
    pub fn from_u32(color: u32) -> (c: Self)
        ensures
            c == (Color::Rgb {
                r: ((color as int / 0x10000) % 0x100) as u8,
                g: (color as int % 0x100) as u8,
                b: (color as int % 0x100) as u8,
            }),
    {
        let rgb = Rgb::from_u32(color);
        Color::Rgb { r: rgb.r, g: rgb.g, b: rgb.b }
    }

    pub fn default() -> (c: Self)
        ensures
            c == Color::Default,
    {
        Color::Default
    }

    /// The colour with the channels of `rgb`.
    pub fn from_rgb(rgb: Rgb) -> (c: Self)
        ensures
            c == (Color::Rgb { r: rgb.r, g: rgb.g, b: rgb.b }),
    {
        Color::Rgb { r: rgb.r, g: rgb.g, b: rgb.b }
    }

    /// The palette colour `color16`.
    pub fn from_color16(color16: Color16) -> (c: Self)
        ensures
            c == Color::Color16(color16),
    {
        Color::Color16(color16)
    }
}

} // verus!
