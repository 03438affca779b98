use vstd::prelude::*;
use crate::color::{Color, Color16, decimal_digits, fg_sgr, bg_sgr, sgr_sequence};

verus! {

/// `ESC [ <base> ; 2 ; r ; g ; b m`: a 24 bit colour, foreground for
/// base 38 and background for base 48.
pub open spec fn rgb_sequence(base: nat, r: u8, g: u8, b: u8) -> Seq<u8> {
    seq![0x1Bu8, 0x5Bu8] + decimal_digits(base) + seq![0x3Bu8, 0x32u8, 0x3Bu8]
        + decimal_digits(r as nat) + seq![0x3Bu8] + decimal_digits(g as nat) + seq![0x3Bu8]
        + decimal_digits(b as nat) + seq![0x6Du8]
}

/// The escape sequence that selects `c` as foreground colour.
pub open spec fn fg_sequence(c: Color) -> Seq<u8> {
    match c {
        Color::Default => sgr_sequence(39),
        Color::Rgb { r, g, b } => rgb_sequence(38, r, g, b),
        Color::Color16(c16) => sgr_sequence(fg_sgr(c16)),
    }
}

/// The escape sequence that selects `c` as background colour.
pub open spec fn bg_sequence(c: Color) -> Seq<u8> {
    match c {
        Color::Default => sgr_sequence(49),
        Color::Rgb { r, g, b } => rgb_sequence(48, r, g, b),
        Color::Color16(c16) => sgr_sequence(bg_sgr(c16)),
    }
}

/// Appends the decimal digits of `n`.
pub fn push_decimal(out: &mut Vec<u8>, n: u8)
    ensures
        final(out)@ == old(out)@ + decimal_digits(n as nat),
{
    if n < 10 {
        out.push(48 + n);
    } else if n < 100 {
        out.push(48 + n / 10);
        out.push(48 + n % 10);
    } else {
        out.push(48 + n / 100);
        out.push(48 + (n / 10) % 10);
        out.push(48 + n % 10);
    }
    assert(final(out)@ =~= old(out)@ + decimal_digits(n as nat));
}

fn push_rgb(out: &mut Vec<u8>, base: u8, r: u8, g: u8, b: u8)
    ensures
        final(out)@ == old(out)@ + rgb_sequence(base as nat, r, g, b),
{
    out.push(0x1B);
    out.push(0x5B);
    push_decimal(out, base);
    out.push(0x3B);
    out.push(0x32);
    out.push(0x3B);
    push_decimal(out, r);
    out.push(0x3B);
    push_decimal(out, g);
    out.push(0x3B);
    push_decimal(out, b);
    out.push(0x6D);
    assert(final(out)@ =~= old(out)@ + rgb_sequence(base as nat, r, g, b));
}

/// Appends the escape sequence that selects `c` as foreground colour.
pub fn write_fg(out: &mut Vec<u8>, c: Color)
    ensures
        final(out)@ == old(out)@ + fg_sequence(c),
{
    match c {
        Color::Default => {
            out.push(0x1B);
            out.push(0x5B);
            push_decimal(out, 39);
            out.push(0x6D);
        },
        Color::Rgb { r, g, b } => push_rgb(out, 38, r, g, b),
        Color::Color16(c16) => {
            let mut v = c16.fg();
            out.append(&mut v);
        },
    }
    assert(final(out)@ =~= old(out)@ + fg_sequence(c));
}

/// Appends the escape sequence that selects `c` as background colour.
pub fn write_bg(out: &mut Vec<u8>, c: Color)
    ensures
        final(out)@ == old(out)@ + bg_sequence(c),
{
    match c {
        Color::Default => {
            out.push(0x1B);
            out.push(0x5B);
            push_decimal(out, 49);
            out.push(0x6D);
        },
        Color::Rgb { r, g, b } => push_rgb(out, 48, r, g, b),
        Color::Color16(c16) => {
            let mut v = c16.bg();
            out.append(&mut v);
        },
    }
    assert(final(out)@ =~= old(out)@ + bg_sequence(c));
}

} // verus!
