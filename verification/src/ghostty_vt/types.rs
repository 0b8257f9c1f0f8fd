//! The flat records of the single-threaded terminal.
pub use crate::ghostty::types::{CellStyle, CursorState, DirtyState, MouseFormat, MouseMode, RawCell};
use vstd::prelude::*;

verus! {

/// A colour by its components.
#[derive(Debug, Clone, Copy, PartialEq, Eq, Structural)]
pub struct ColorRGB {
    pub r: u8,
    pub g: u8,
    pub b: u8,
}

impl Default for ColorRGB {
    fn default() -> (color: ColorRGB)
        ensures
            color == (ColorRGB { r: 0, g: 0, b: 0 }),
    {
        ColorRGB { r: 0, g: 0, b: 0 }
    }
}

/// The colours of the screen.
#[derive(Debug, Clone, Copy, PartialEq, Eq, Structural)]
pub struct ColorState {
    pub background: ColorRGB,
    pub foreground: ColorRGB,
    pub cursor_color: ColorRGB,
    pub has_cursor_color: u8,
}

impl Default for ColorState {
    fn default() -> (colors: ColorState)
        ensures
            colors.background == (ColorRGB { r: 0, g: 0, b: 0 }),
            colors.foreground == (ColorRGB { r: 0, g: 0, b: 0 }),
            colors.cursor_color == (ColorRGB { r: 0, g: 0, b: 0 }),
            colors.has_cursor_color == 0,
    {
        let black = ColorRGB { r: 0, g: 0, b: 0 };
        ColorState {
            background: black,
            foreground: black,
            cursor_color: black,
            has_cursor_color: 0,
        }
    }
}

/// A cell with its style written out.
#[derive(Debug, Clone, Copy, PartialEq, Eq, Structural)]
pub struct FlatCell {
    /// Code point, 0 for an empty cell.
    pub codepoint: u32,
    /// Number of further code points in the grapheme.
    pub grapheme_len: u8,
    /// 0 narrow, 1 wide, 2 and 3 spacers.
    pub wide: u8,
    /// 0 default, 1 palette, 2 components.
    pub fg_color_type: u8,
    pub fg_r: u8,
    pub fg_g: u8,
    pub fg_b: u8,
    pub fg_palette: u8,
    /// 0 default, 1 palette, 2 components.
    pub bg_color_type: u8,
    pub bg_r: u8,
    pub bg_g: u8,
    pub bg_b: u8,
    pub bg_palette: u8,
    /// 0 none, 1 palette, 2 components.
    pub ul_color_type: u8,
    pub ul_r: u8,
    pub ul_g: u8,
    pub ul_b: u8,
    pub ul_palette: u8,
    /// Style flags, laid out as in a cell style.
    pub style_flags: u16,
}

/// The answer to a key name: a key's number, or nothing if it is negative.
pub fn key_from_code(result: i32) -> (key: Option<i32>)
    ensures
        key == if result < 0 {
            None
        } else {
            Some(result)
        },
{
    if result < 0 {
        None
    } else {
        Some(result)
    }
}

} // verus!
