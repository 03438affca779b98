use vstd::prelude::*;
use crate::color::{Color, Color16};
use crate::rich_text::{RichTextStyle, default_style, default_style_value};

verus! {

/// The colour `0xRRGGBB` as [`Color::from_u32`] splits it.
pub open spec fn color_of(v: u32) -> Color {
    Color::Rgb {
        r: ((v as int / 0x10000) % 0x100) as u8,
        g: (v as int % 0x100) as u8,
        b: (v as int % 0x100) as u8,
    }
}

/// The default style with foreground `0xRRGGBB`.
pub open spec fn fg_style(v: u32) -> RichTextStyle {
    RichTextStyle { foreground: color_of(v), ..default_style() }
}

fn with_fg(v: u32) -> (s: RichTextStyle)
    ensures
        s == fg_style(v),
{
    let d = default_style_value();
    RichTextStyle { foreground: Color::from_u32(v), ..d }
}

pub open spec fn even_row_background() -> Color { color_of(0x111111) }
pub open spec fn odd_row_background() -> Color { color_of(0x000000) }
pub open spec fn selected_even_row_background() -> Color { color_of(0x333333) }
pub open spec fn selected_odd_row_background() -> Color { color_of(0x222222) }
pub open spec fn table_foreground() -> Color { color_of(0xFFFFFF) }

/// Background of even table rows.
pub fn even_row_background_value() -> (c: Color)
    ensures
        c == even_row_background(),
{
    Color::from_u32(0x111111)
}

/// Background of odd table rows.
pub fn odd_row_background_value() -> (c: Color)
    ensures
        c == odd_row_background(),
{
    Color::from_u32(0x000000)
}

/// Background of the selected row where it is even.
pub fn selected_even_row_background_value() -> (c: Color)
    ensures
        c == selected_even_row_background(),
{
    Color::from_u32(0x333333)
}

/// Background of the selected row where it is odd.
pub fn selected_odd_row_background_value() -> (c: Color)
    ensures
        c == selected_odd_row_background(),
{
    Color::from_u32(0x222222)
}

/// Foreground of table text.
pub fn table_foreground_value() -> (c: Color)
    ensures
        c == table_foreground(),
{
    Color::from_u32(0xFFFFFF)
}

/// Malformed input: white on red.
pub open spec fn error_style() -> RichTextStyle {
    RichTextStyle { foreground: color_of(0xFFFFFF), background: color_of(0xFF2200), ..default_style() }
}

pub open spec fn number_style() -> RichTextStyle { fg_style(0x00FF00) }
pub open spec fn symbol_style() -> RichTextStyle { fg_style(0x0088FF) }
pub open spec fn keyword_style() -> RichTextStyle { fg_style(0x00FFFF) }
pub open spec fn string_style() -> RichTextStyle { fg_style(0xFF5500) }
pub open spec fn escape_style() -> RichTextStyle { fg_style(0xFFAA00) }
pub open spec fn comment_style() -> RichTextStyle { fg_style(0xAAAAAA) }
pub open spec fn doctype_style() -> RichTextStyle { fg_style(0x00FF00) }
pub open spec fn tag_style() -> RichTextStyle { fg_style(0xFFAA00) }
pub open spec fn attr_style() -> RichTextStyle { fg_style(0x00AAFF) }

/// Field values that could not be shown: red text.
pub open spec fn field_error_style() -> RichTextStyle {
    RichTextStyle { foreground: Color::Color16(Color16::Red), ..default_style() }
}

pub fn error_style_value() -> (s: RichTextStyle)
    ensures
        s == error_style(),
{
    let d = default_style_value();
    RichTextStyle { foreground: Color::from_u32(0xFFFFFF), background: Color::from_u32(0xFF2200), ..d }
}

pub fn number_style_value() -> (s: RichTextStyle)
    ensures
        s == number_style(),
{
    with_fg(0x00FF00)
}

pub fn symbol_style_value() -> (s: RichTextStyle)
    ensures
        s == symbol_style(),
{
    with_fg(0x0088FF)
}

pub fn keyword_style_value() -> (s: RichTextStyle)
    ensures
        s == keyword_style(),
{
    with_fg(0x00FFFF)
}

pub fn string_style_value() -> (s: RichTextStyle)
    ensures
        s == string_style(),
{
    with_fg(0xFF5500)
}

pub fn escape_style_value() -> (s: RichTextStyle)
    ensures
        s == escape_style(),
{
    with_fg(0xFFAA00)
}

pub fn comment_style_value() -> (s: RichTextStyle)
    ensures
        s == comment_style(),
{
    with_fg(0xAAAAAA)
}

pub fn doctype_style_value() -> (s: RichTextStyle)
    ensures
        s == doctype_style(),
{
    with_fg(0x00FF00)
}

pub fn tag_style_value() -> (s: RichTextStyle)
    ensures
        s == tag_style(),
{
    with_fg(0xFFAA00)
}

pub fn attr_style_value() -> (s: RichTextStyle)
    ensures
        s == attr_style(),
{
    with_fg(0x00AAFF)
}

pub fn field_error_style_value() -> (s: RichTextStyle)
    ensures
        s == field_error_style(),
{
    let d = default_style_value();
    RichTextStyle { foreground: Color::Color16(Color16::Red), ..d }
}

} // verus!
