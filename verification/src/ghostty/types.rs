//! The terminal's render state as packed words and plain records.
use vstd::prelude::*;

verus! {

/// Where the cursor is and how it is drawn.
#[derive(Debug, Clone, Copy, PartialEq, Eq, Structural)]
pub struct CursorState {
    pub x: u16,
    pub y: u16,
    pub in_viewport: u8,
    pub style: u8,
    pub visible: u8,
    pub blinking: u8,
    pub password_input: u8,
    pub wide_tail: u8,
}

impl Default for CursorState {
    fn default() -> (cursor: CursorState)
        ensures
            cursor == (CursorState {
                x: 0,
                y: 0,
                in_viewport: 0,
                style: 0,
                visible: 0,
                blinking: 0,
                password_input: 0,
                wide_tail: 0,
            }),
    {
        CursorState {
            x: 0,
            y: 0,
            in_viewport: 0,
            style: 0,
            visible: 0,
            blinking: 0,
            password_input: 0,
            wide_tail: 0,
        }
    }
}

/// A colour in one word: red in the lowest byte, then green and blue. The
/// highest byte carries nothing.
#[derive(Clone, Copy, PartialEq, Eq, Debug, Structural)]
pub struct ColorRGB(u32);

impl Default for ColorRGB {
    fn default() -> (color: ColorRGB)
        ensures
            color.word() == 0,
    {
        ColorRGB(0)
    }
}

impl ColorRGB {
    /// The packed word.
    pub closed spec fn word(self) -> u32 {
        self.0
    }

    /// The red component.
    pub open spec fn red(self) -> int {
        self.word() as int % 0x100
    }

    /// The green component.
    pub open spec fn green(self) -> int {
        (self.word() as int / 0x100) % 0x100
    }

    /// The blue component.
    pub open spec fn blue(self) -> int {
        (self.word() as int / 0x1_0000) % 0x100
    }

    /// The colour with the given components.
    pub closed spec fn packed(r: u8, g: u8, b: u8) -> ColorRGB {
        ColorRGB((r + g * 0x100 + b * 0x1_0000) as u32)
    }

    /// Packs a colour from its components.
    pub fn new(r: u8, g: u8, b: u8) -> (color: ColorRGB)
        ensures
            color == ColorRGB::packed(r, g, b),
            color.word() == r + g * 0x100 + b * 0x1_0000,
            color.red() == r,
            color.green() == g,
            color.blue() == b,
    {
        ColorRGB(r as u32 + (g as u32) * 0x100 + (b as u32) * 0x1_0000)
    }

    /// The colour that a word of render state holds.
    pub fn from_word(word: u32) -> (color: ColorRGB)
        ensures
            color.word() == word,
    {
        ColorRGB(word)
    }

    pub fn r(self) -> (r: u8)
        ensures
            r == self.red(),
    {
        (self.0 % 0x100) as u8
    }

    pub fn g(self) -> (g: u8)
        ensures
            g == self.green(),
    {
        ((self.0 / 0x100) % 0x100) as u8
    }

    pub fn b(self) -> (b: u8)
        ensures
            b == self.blue(),
    {
        ((self.0 / 0x1_0000) % 0x100) as u8
    }

    /// The bytes red, green, blue and an opaque alpha, the first lowest.
    pub fn to_rgba_u32(self) -> (rgba: u32)
        ensures
            rgba == self.red() + self.green() * 0x100 + self.blue() * 0x1_0000 + 0xff * 0x100_0000,
    {
        self.to_rgba_u32_with_alpha(0xff)
    }

    /// The bytes red, green, blue and the given alpha, the first lowest.
    pub fn to_rgba_u32_with_alpha(self, a: u8) -> (rgba: u32)
        ensures
            rgba == self.red() + self.green() * 0x100 + self.blue() * 0x1_0000 + a * 0x100_0000,
    {
        proof {
            lemma_low_bytes(self.0 as int);
        }
        self.0 % 0x100_0000 + (a as u32) * 0x100_0000
    }
}

/// The three lowest bytes of a number make up its rest by 2^24.
proof fn lemma_low_bytes(w: int)
    requires
        0 <= w,
    ensures
        w % 0x100_0000 == w % 0x100 + ((w / 0x100) % 0x100) * 0x100 + ((w / 0x1_0000) % 0x100)
            * 0x1_0000,
{
    let second = w / 0x100;
    let third = second / 0x100;
    let rest = third / 0x100;
    assert(third == w / 0x1_0000);
    assert(w == w % 0x100 + (second % 0x100) * 0x100 + (third % 0x100) * 0x1_0000 + rest
        * 0x100_0000);
}

/// Colours are the same exactly if their words are.
pub proof fn law_color_is_its_word(a: ColorRGB, b: ColorRGB)
    ensures
        a.word() == b.word() <==> a == b,
{
}

/// A colour made of components has just those components.
pub proof fn law_color_has_its_components(r: u8, g: u8, b: u8)
    ensures
        ColorRGB::packed(r, g, b).red() == r,
        ColorRGB::packed(r, g, b).green() == g,
        ColorRGB::packed(r, g, b).blue() == b,
{
}

/// Colours made of components are the same exactly if all their components
/// are.
pub proof fn law_color_is_its_components(r1: u8, g1: u8, b1: u8, r2: u8, g2: u8, b2: u8)
    ensures
        ColorRGB::packed(r1, g1, b1) == ColorRGB::packed(r2, g2, b2) <==> (r1 == r2 && g1 == g2
            && b1 == b2),
{
    law_color_has_its_components(r1, g1, b1);
    law_color_has_its_components(r2, g2, b2);
}

/// A colour that may be absent.
#[derive(Clone, Copy, Debug, PartialEq, Eq, Structural)]
pub struct OptionalColorRGB {
    pub rgb: ColorRGB,
    /// 1 if the colour is there.
    pub tag: u8,
}

impl OptionalColorRGB {
    pub fn into_option(self) -> (color: Option<ColorRGB>)
        ensures
            color == if self.tag == 1 {
                Some(self.rgb)
            } else {
                None
            },
    {
        if self.tag == 1 {
            Some(self.rgb)
        } else {
            None
        }
    }
}

/// The colours of the screen.
#[derive(Clone, Copy, Debug)]
pub struct RenderColors {
    pub background: ColorRGB,
    pub foreground: ColorRGB,
    pub cursor: OptionalColorRGB,
    pub palette: [ColorRGB; 256],
}

impl RenderColors {
    /// The cursor's own colour, if it has one.
    pub fn cursor_color(&self) -> (color: Option<ColorRGB>)
        ensures
            color == if self.cursor.tag == 1 {
                Some(self.cursor.rgb)
            } else {
                None
            },
    {
        self.cursor.into_option()
    }
}

/// A cell of the screen in one word. From the lowest bit: the content's tag
/// in two (0 a code point, 1 a code point that begins a grapheme, 2 a palette
/// colour, 3 an RGB colour), the content in twenty-four, the style in sixteen,
/// the width in two (0 narrow, 1 wide, 2 and 3 spacers), then flags that
/// nothing here reads.
#[derive(Clone, Copy, Debug, PartialEq, Eq, Structural)]
pub struct RawCell(u64);

impl RawCell {
    /// The packed word.
    pub closed spec fn word(self) -> u64 {
        self.0
    }

    pub open spec fn tag(self) -> int {
        self.word() as int % 4
    }

    pub open spec fn content_bits(self) -> int {
        self.word() as int / 4
    }

    pub open spec fn point(self) -> int {
        self.content_bits() % 0x20_0000
    }

    pub open spec fn style_number(self) -> int {
        (self.word() as int / 0x400_0000) % 0x1_0000
    }

    pub open spec fn width_code(self) -> int {
        (self.word() as int / 0x400_0000_0000) % 4
    }

    pub open spec fn spacer(self) -> bool {
        self.width_code() >= 2
    }

    /// The cell that a word of render state holds.
    pub fn from_word(word: u64) -> (cell: RawCell)
        ensures
            cell.word() == word,
    {
        RawCell(word)
    }

    /// The content's tag.
    pub fn content_tag(&self) -> (tag: u8)
        ensures
            tag == self.tag(),
    {
        (self.0 % 4) as u8
    }

    /// The code point, for a cell with text.
    pub fn codepoint(&self) -> (codepoint: u32)
        ensures
            codepoint == self.point(),
    {
        ((self.0 / 4) % 0x20_0000) as u32
    }

    /// The style's number, 0 for the default style.
    pub fn style_id(&self) -> (id: u16)
        ensures
            id == self.style_number(),
    {
        ((self.0 / 0x400_0000) % 0x1_0000) as u16
    }

    /// The width code.
    pub fn wide(&self) -> (wide: u8)
        ensures
            wide == self.width_code(),
    {
        ((self.0 / 0x400_0000_0000) % 4) as u8
    }

    /// Whether the cell only makes room for a wide neighbour.
    pub fn is_spacer(&self) -> (spacer: bool)
        ensures
            spacer == self.spacer(),
    {
        self.wide() >= 2
    }

    /// Whether the cell holds a code point.
    pub fn has_text(&self) -> (text: bool)
        ensures
            text == (self.tag() <= 1),
    {
        self.content_tag() <= 1
    }

    /// Whether the code point begins a longer grapheme.
    pub fn has_grapheme(&self) -> (grapheme: bool)
        ensures
            grapheme == (self.tag() == 1),
    {
        self.content_tag() == 1
    }

    /// Whether the cell holds a background colour only.
    pub fn is_bg_only(&self) -> (bg_only: bool)
        ensures
            bg_only == (self.tag() >= 2),
    {
        self.content_tag() >= 2
    }

    /// The palette index, for a cell with a palette colour.
    pub fn bg_palette_index(&self) -> (index: u8)
        ensures
            index == self.content_bits() % 0x100,
    {
        ((self.0 / 4) % 0x100) as u8
    }

    /// The components, for a cell with an RGB colour.
    pub fn bg_rgb(&self) -> (rgb: (u8, u8, u8))
        ensures
            rgb.0 == self.content_bits() % 0x100,
            rgb.1 == (self.content_bits() / 0x100) % 0x100,
            rgb.2 == (self.content_bits() / 0x1_0000) % 0x100,
    {
        let bits: u64 = self.0 / 4;
        ((bits % 0x100) as u8, ((bits / 0x100) % 0x100) as u8, ((bits / 0x1_0000) % 0x100) as u8)
    }
}

/// Cells are the same exactly if their words are.
pub proof fn law_cell_is_its_word(a: RawCell, b: RawCell)
    ensures
        a.word() == b.word() <==> a == b,
{
}

/// A cell holds text or a background colour, and never both.
pub proof fn law_cell_is_text_or_background(cell: RawCell)
    ensures
        (cell.tag() <= 1) != (cell.tag() >= 2),
{
}

/// A colour in a style: none, an index into the palette in `r`, or components.
#[derive(Clone, Copy, Debug, PartialEq, Eq, Structural)]
pub struct StyleColor {
    pub r: u8,
    pub g: u8,
    pub b: u8,
    /// 0 none, 1 palette, 2 components.
    pub tag: u8,
}

/// How a cell is drawn. From the lowest bit the flags are bold, italic, faint,
/// blink, inverse, invisible, strikethrough and overline, then three bits of
/// underline style.
#[derive(Clone, Copy, Debug, PartialEq, Eq, Structural)]
pub struct CellStyle {
    pub fg: StyleColor,
    pub bg: StyleColor,
    pub underline: StyleColor,
    pub flags: u16,
}

impl CellStyle {
    /// Whether the flag at bit `n` is set, where `weight` is two to the `n`.
    pub open spec fn flag(self, weight: int) -> bool {
        (self.flags as int / weight) % 2 == 1
    }

    pub fn is_bold(&self) -> (set: bool)
        ensures
            set == self.flag(1),
    {
        self.flags % 2 == 1
    }

    pub fn is_italic(&self) -> (set: bool)
        ensures
            set == self.flag(2),
    {
        (self.flags / 2) % 2 == 1
    }

    pub fn is_faint(&self) -> (set: bool)
        ensures
            set == self.flag(4),
    {
        (self.flags / 4) % 2 == 1
    }

    pub fn is_blink(&self) -> (set: bool)
        ensures
            set == self.flag(8),
    {
        (self.flags / 8) % 2 == 1
    }

    pub fn is_inverse(&self) -> (set: bool)
        ensures
            set == self.flag(16),
    {
        (self.flags / 16) % 2 == 1
    }

    pub fn is_invisible(&self) -> (set: bool)
        ensures
            set == self.flag(32),
    {
        (self.flags / 32) % 2 == 1
    }

    pub fn is_strikethrough(&self) -> (set: bool)
        ensures
            set == self.flag(64),
    {
        (self.flags / 64) % 2 == 1
    }

    pub fn is_overline(&self) -> (set: bool)
        ensures
            set == self.flag(128),
    {
        (self.flags / 128) % 2 == 1
    }

    /// The underline style, 0 for none.
    pub fn underline_style(&self) -> (style: u8)
        ensures
            style == (self.flags as int / 256) % 8,
    {
        ((self.flags / 256) % 8) as u8
    }
}

/// The further code points of a cell's grapheme. Only the low twenty-one bits
/// of each count.
#[derive(Debug)]
pub struct GraphemeSlice {
    pub codepoints: Vec<u32>,
}

impl GraphemeSlice {
    /// The code points, unless there are none.
    pub fn as_slice(&self) -> (codepoints: Option<&[u32]>)
        ensures
            match codepoints {
                Some(slice) => slice@ == self.codepoints@ && slice@.len() > 0,
                None => self.codepoints@.len() == 0,
            },
    {
        if self.codepoints.len() == 0 {
            None
        } else {
            Some(self.codepoints.as_slice())
        }
    }
}

/// Where the viewport is within all rows.
#[derive(Debug, Clone, Copy, PartialEq, Eq, Structural)]
pub struct ScrollbarInfo {
    /// Rows of scrollback and screen together.
    pub total_rows: u64,
    /// First row of the viewport.
    pub top_row: u64,
    /// Rows that the viewport shows.
    pub viewport_rows: u64,
}

impl Default for ScrollbarInfo {
    fn default() -> (info: ScrollbarInfo)
        ensures
            info == (ScrollbarInfo { total_rows: 0, top_row: 0, viewport_rows: 0 }),
    {
        ScrollbarInfo { total_rows: 0, top_row: 0, viewport_rows: 0 }
    }
}

/// How much of the render state changed.
#[derive(Debug, Clone, Copy, PartialEq, Eq, Structural)]
pub enum DirtyState {
    Clean,
    Partial,
    Full,
}

impl DirtyState {
    /// The state that a number names; every number above 1 is a full change.
    pub fn from_raw(value: u8) -> (state: DirtyState)
        ensures
            state == if value == 0 {
                DirtyState::Clean
            } else if value == 1 {
                DirtyState::Partial
            } else {
                DirtyState::Full
            },
    {
        match value {
            0 => DirtyState::Clean,
            1 => DirtyState::Partial,
            _ => DirtyState::Full,
        }
    }

    pub fn is_dirty(self) -> (dirty: bool)
        ensures
            dirty == !(self is Clean),
    {
        self != DirtyState::Clean
    }
}

/// Which mouse events a program asked for.
#[derive(Debug, Clone, Copy, PartialEq, Eq, Structural)]
pub enum MouseMode {
    Off,
    X10,
    Normal,
    Button,
    Any,
}

impl MouseMode {
    /// The number of a mode.
    pub open spec fn raw(self) -> u8 {
        match self {
            MouseMode::Off => 0,
            MouseMode::X10 => 1,
            MouseMode::Normal => 2,
            MouseMode::Button => 3,
            MouseMode::Any => 4,
        }
    }

    /// The mode that a number names; every number above 3 asks for all events.
    pub open spec fn of_raw(value: u8) -> MouseMode {
        if value == 0 {
            MouseMode::Off
        } else if value == 1 {
            MouseMode::X10
        } else if value == 2 {
            MouseMode::Normal
        } else if value == 3 {
            MouseMode::Button
        } else {
            MouseMode::Any
        }
    }

    pub fn from_raw(value: u8) -> (mode: MouseMode)
        ensures
            mode == MouseMode::of_raw(value),
    {
        match value {
            0 => MouseMode::Off,
            1 => MouseMode::X10,
            2 => MouseMode::Normal,
            3 => MouseMode::Button,
            _ => MouseMode::Any,
        }
    }

    pub fn to_raw(self) -> (value: u8)
        ensures
            value == self.raw(),
    {
        match self {
            MouseMode::Off => 0,
            MouseMode::X10 => 1,
            MouseMode::Normal => 2,
            MouseMode::Button => 3,
            MouseMode::Any => 4,
        }
    }
}

/// How mouse events are written.
#[derive(Debug, Clone, Copy, PartialEq, Eq, Structural)]
pub enum MouseFormat {
    X10,
    Utf8,
    Sgr,
    Urxvt,
    SgrPixels,
}

impl MouseFormat {
    /// The number of a format.
    pub open spec fn raw(self) -> u8 {
        match self {
            MouseFormat::X10 => 0,
            MouseFormat::Utf8 => 1,
            MouseFormat::Sgr => 2,
            MouseFormat::Urxvt => 3,
            MouseFormat::SgrPixels => 4,
        }
    }

    /// The format that a number names; every number above 3 is in pixels.
    pub open spec fn of_raw(value: u8) -> MouseFormat {
        if value == 0 {
            MouseFormat::X10
        } else if value == 1 {
            MouseFormat::Utf8
        } else if value == 2 {
            MouseFormat::Sgr
        } else if value == 3 {
            MouseFormat::Urxvt
        } else {
            MouseFormat::SgrPixels
        }
    }

    pub fn from_raw(value: u8) -> (format: MouseFormat)
        ensures
            format == MouseFormat::of_raw(value),
    {
        match value {
            0 => MouseFormat::X10,
            1 => MouseFormat::Utf8,
            2 => MouseFormat::Sgr,
            3 => MouseFormat::Urxvt,
            _ => MouseFormat::SgrPixels,
        }
    }

    pub fn to_raw(self) -> (value: u8)
        ensures
            value == self.raw(),
    {
        match self {
            MouseFormat::X10 => 0,
            MouseFormat::Utf8 => 1,
            MouseFormat::Sgr => 2,
            MouseFormat::Urxvt => 3,
            MouseFormat::SgrPixels => 4,
        }
    }
}

/// A mode or format written as a number reads back as itself.
pub proof fn law_mouse_settings_read_back(mode: MouseMode, format: MouseFormat)
    ensures
        MouseMode::of_raw(mode.raw()) == mode,
        MouseFormat::of_raw(format.raw()) == format,
{
}

/// A colour's word has red in its lowest byte, then green, then blue.
pub proof fn law_word_of_a_color(r: u8, g: u8, b: u8, color: ColorRGB)
    ensures
        ColorRGB::packed(r, g, b).word() == r + 256 * g + 65536 * b,
        color.word() % 0x100_0000 == color.red() + 256 * color.green() + 65536 * color.blue(),
        0 <= color.red() < 256,
        0 <= color.green() < 256,
        0 <= color.blue() < 256,
{
    let w = color.word() as int;
    assert(w == w % 0x100 + 0x100 * (w / 0x100));
    assert(w / 0x100 == (w / 0x100) % 0x100 + 0x100 * (w / 0x1_0000));
    assert(w / 0x1_0000 == (w / 0x1_0000) % 0x100 + 0x100 * (w / 0x100_0000));
    assert(w == w % 0x100_0000 + 0x100_0000 * (w / 0x100_0000));
}

/// A cell's word has the tag in its lowest two bits and the code point in the 21 after
/// them; three bits on there are sixteen for the style, and two for the width. Widths
/// from two on are those of spacers.
pub proof fn law_word_of_a_cell(
    cell: RawCell,
    tag: int,
    point: int,
    between: int,
    style: int,
    width: int,
    rest: int,
)
    requires
        0 <= tag < 4,
        0 <= point < 0x20_0000,
        0 <= between < 8,
        0 <= style < 0x1_0000,
        0 <= width < 4,
        0 <= rest,
        cell.word() == tag + 4 * point + 0x80_0000 * between + 0x400_0000 * style + 0x400_0000_0000
            * width + 0x1000_0000_0000 * rest,
    ensures
        cell.tag() == tag,
        cell.point() == point,
        cell.style_number() == style,
        cell.width_code() == width,
        cell.spacer() == (width == 2 || width == 3),
{
    let w = cell.word() as int;
    assert(w / 4 == point + 0x20_0000 * (between + 8 * style + 0x8_0000 * width + 0x20_0000
        * rest));
    assert(w / 0x400_0000 == style + 0x1_0000 * (width + 4 * rest));
    assert(w / 0x400_0000_0000 == width + 4 * rest);
}

/// The flags of a style are its bits, from the lowest on.
pub proof fn law_flags_of_a_style(style: CellStyle, low: int, bit: int, high: int)
    requires
        0 <= bit < 2,
        0 <= low,
        0 <= high,
    ensures
        style.flags == bit + 2 * high ==> style.flag(1) == (bit == 1),
        low < 2 && style.flags == low + 2 * bit + 4 * high ==> style.flag(2) == (bit == 1),
        low < 4 && style.flags == low + 4 * bit + 8 * high ==> style.flag(4) == (bit == 1),
        low < 8 && style.flags == low + 8 * bit + 16 * high ==> style.flag(8) == (bit == 1),
        low < 16 && style.flags == low + 16 * bit + 32 * high ==> style.flag(16) == (bit == 1),
        low < 32 && style.flags == low + 32 * bit + 64 * high ==> style.flag(32) == (bit == 1),
        low < 64 && style.flags == low + 64 * bit + 128 * high ==> style.flag(64) == (bit == 1),
        low < 128 && style.flags == low + 128 * bit + 256 * high ==> style.flag(128) == (bit == 1),
{
}

/// The numbers of the mouse modes and formats; those beyond the last name it too.
pub proof fn law_numbers_of_mouse_settings(value: u8)
    ensures
        MouseMode::of_raw(0) is Off && MouseMode::Off.raw() == 0,
        MouseMode::of_raw(1) is X10 && MouseMode::X10.raw() == 1,
        MouseMode::of_raw(2) is Normal && MouseMode::Normal.raw() == 2,
        MouseMode::of_raw(3) is Button && MouseMode::Button.raw() == 3,
        value > 3 ==> MouseMode::of_raw(value) is Any,
        MouseMode::Any.raw() == 4,
        MouseFormat::of_raw(0) is X10 && MouseFormat::X10.raw() == 0,
        MouseFormat::of_raw(1) is Utf8 && MouseFormat::Utf8.raw() == 1,
        MouseFormat::of_raw(2) is Sgr && MouseFormat::Sgr.raw() == 2,
        MouseFormat::of_raw(3) is Urxvt && MouseFormat::Urxvt.raw() == 3,
        value > 3 ==> MouseFormat::of_raw(value) is SgrPixels,
        MouseFormat::SgrPixels.raw() == 4,
{
}

} // verus!
