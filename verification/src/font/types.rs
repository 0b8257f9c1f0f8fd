//! The values that fonts, runs and shaped cells are described with.
use crate::font::cache::glyph_cache::GlyphAtlasKind;
use vstd::prelude::*;

verus! {

/// Whether a character is to be drawn as text or as an emoji.
#[derive(Clone, Copy, Debug, PartialEq, Eq, Hash, Structural)]
pub enum Presentation {
    Text,
    Emoji,
}

impl Presentation {
    /// The atlas that a presentation is drawn into.
    pub open spec fn atlas(self) -> GlyphAtlasKind {
        match self {
            Presentation::Text => GlyphAtlasKind::Grayscale,
            Presentation::Emoji => GlyphAtlasKind::Color,
        }
    }

    /// The atlas that a presentation is drawn into.
    pub fn atlas_kind(self) -> (kind: GlyphAtlasKind)
        ensures
            kind == self.atlas(),
    {
        match self {
            Presentation::Text => GlyphAtlasKind::Grayscale,
            Presentation::Emoji => GlyphAtlasKind::Color,
        }
    }
}

/// The four style variants of a font.
#[derive(Clone, Copy, Debug, PartialEq, Eq, Hash, Structural)]
pub enum Style {
    Normal,
    Bold,
    Italic,
    BoldItalic,
}

impl Style {
    /// Number of style variants.
    pub const COUNT: usize = 4;

    /// The place of the variant in the list of all of them.
    pub open spec fn rank(self) -> int {
        match self {
            Style::Normal => 0,
            Style::Bold => 1,
            Style::Italic => 2,
            Style::BoldItalic => 3,
        }
    }

    /// The variant at a place in the list of all of them.
    pub open spec fn of_rank(rank: int) -> Style {
        if rank == 0 {
            Style::Normal
        } else if rank == 1 {
            Style::Bold
        } else if rank == 2 {
            Style::Italic
        } else {
            Style::BoldItalic
        }
    }

    /// All style variants, by rank.
    pub fn all() -> (styles: [Style; 4])
        ensures
            forall|i: int| 0 <= i < 4 ==> #[trigger] styles[i] == Style::of_rank(i),
    {
        [Style::Normal, Style::Bold, Style::Italic, Style::BoldItalic]
    }

    /// The place of the variant in the list of all of them.
    pub fn to_rank(self) -> (rank: usize)
        ensures
            rank == self.rank(),
    {
        match self {
            Style::Normal => 0,
            Style::Bold => 1,
            Style::Italic => 2,
            Style::BoldItalic => 3,
        }
    }

    pub fn is_bold(self) -> (bold: bool)
        ensures
            bold == (self is Bold || self is BoldItalic),
    {
        matches!(self, Style::Bold | Style::BoldItalic)
    }

    pub fn is_italic(self) -> (italic: bool)
        ensures
            italic == (self is Italic || self is BoldItalic),
    {
        matches!(self, Style::Italic | Style::BoldItalic)
    }
}

/// Dense font face identifier: a style variant in the top three bits and the
/// face's place among the faces of that variant in the lower thirteen.
#[derive(Clone, Copy, Debug, PartialEq, Eq, Hash, Structural)]
pub struct FontIndex(u16);

impl Default for FontIndex {
    fn default() -> (index: FontIndex)
        ensures
            index.raw() == 0,
            index.wf(),
    {
        FontIndex(0)
    }
}

impl FontIndex {
    /// The largest face index of a style variant.
    pub const MAX_FACES_PER_STYLE: u16 = 8191;

    /// The packed value.
    pub closed spec fn raw(self) -> u16 {
        self.0
    }

    /// The identifier with a packed value.
    pub closed spec fn packed(raw: u16) -> FontIndex {
        FontIndex(raw)
    }

    /// The top bits name a style variant.
    pub open spec fn wf(self) -> bool {
        self.raw() < 4 * 8192
    }

    /// The style variant that the identifier names.
    pub open spec fn variant(self) -> Style {
        Style::of_rank(self.raw() as int / 8192)
    }

    /// The place among the faces of the variant.
    pub open spec fn face(self) -> int {
        self.raw() as int % 8192
    }

    /// Packs a style variant and a face index.
    pub fn new(style: Style, idx: u16) -> (index: FontIndex)
        requires
            idx <= FontIndex::MAX_FACES_PER_STYLE,
        ensures
            index.wf(),
            index.raw() == style.rank() * 8192 + idx,
            index == FontIndex::packed((style.rank() * 8192 + idx) as u16),
            index.variant() == style,
            index.face() == idx,
    {
        let rank: u16 = match style {
            Style::Normal => 0,
            Style::Bold => 1,
            Style::Italic => 2,
            Style::BoldItalic => 3,
        };
        FontIndex(rank * 8192 + idx)
    }

    /// The identifier with the packed value `raw`.
    pub fn from_u16(raw: u16) -> (index: FontIndex)
        ensures
            index.raw() == raw,
            index == FontIndex::packed(raw),
    {
        FontIndex(raw)
    }

    /// The packed value.
    pub fn to_u16(self) -> (raw: u16)
        ensures
            raw == self.raw(),
    {
        self.0
    }

    /// The style variant.
    pub fn style(self) -> (style: Style)
        requires
            self.wf(),
        ensures
            style == self.variant(),
    {
        let rank: u16 = self.0 / 8192;
        if rank == 0 {
            Style::Normal
        } else if rank == 1 {
            Style::Bold
        } else if rank == 2 {
            Style::Italic
        } else {
            Style::BoldItalic
        }
    }

    /// The face index.
    pub fn index(self) -> (idx: u16)
        ensures
            idx == self.face(),
    {
        self.0 % 8192
    }
}

/// The parts of an identifier that is packed from a variant and a face.
pub proof fn lemma_packed_parts(style: Style, face: int)
    requires
        0 <= face < 8192,
    ensures
        ({
            let index = FontIndex::packed((style.rank() * 8192 + face) as u16);
            &&& index.wf()
            &&& index.variant() == style
            &&& index.face() == face
        }),
{
}

/// Two valid identifiers with the same variant and face are the same.
pub proof fn law_font_index_is_its_parts(a: FontIndex, b: FontIndex)
    requires
        a.wf(),
        b.wf(),
        a.variant() == b.variant(),
        a.face() == b.face(),
    ensures
        a == b,
{
    assert(a.raw() == (a.raw() as int / 8192) * 8192 + a.raw() as int % 8192);
    assert(b.raw() == (b.raw() as int / 8192) * 8192 + b.raw() as int % 8192);
}

/// A run of cells that are shaped together.
#[derive(Clone, Copy, Debug, PartialEq, Eq, Structural)]
pub struct TextRun {
    /// Position-independent hash of the run's content.
    pub hash: u64,
    /// Start column of the run in its row.
    pub offset: u16,
    /// Number of terminal cells that the run covers.
    pub cells: u16,
    /// The font face of the run.
    pub font_index: FontIndex,
}

impl Default for TextRun {
    fn default() -> (run: TextRun)
        ensures
            run.hash == 0,
            run.offset == 0,
            run.cells == 0,
            run.font_index.raw() == 0,
    {
        TextRun { hash: 0, offset: 0, cells: 0, font_index: FontIndex(0) }
    }
}

/// A shaped glyph and where it goes.
#[derive(Clone, Copy, Debug, PartialEq, Eq, Structural)]
pub struct Cell {
    /// Column relative to the run's offset.
    pub x: u16,
    /// Additional horizontal offset when drawing.
    pub x_offset: i16,
    /// Additional vertical offset when drawing.
    pub y_offset: i16,
    /// Glyph index in the run's font face.
    pub glyph_index: u32,
}

impl Default for Cell {
    fn default() -> (cell: Cell)
        ensures
            cell == (Cell { x: 0, x_offset: 0, y_offset: 0, glyph_index: 0 }),
    {
        Cell { x: 0, x_offset: 0, y_offset: 0, glyph_index: 0 }
    }
}

/// A stretch of text in one script, as the text analysis reports it.
#[derive(Clone, Copy, Debug, PartialEq, Eq, Structural)]
pub struct ScriptRun {
    /// First UTF-16 unit of the stretch.
    pub text_position: u32,
    /// UTF-16 units in the stretch.
    pub text_length: u32,
    /// Script number of the analysis.
    pub script: u16,
    /// Shaping flags of the analysis.
    pub shapes: i32,
}

/// A stretch of text at one bidirectional embedding level.
#[derive(Clone, Copy, Debug, PartialEq, Eq, Structural)]
pub struct BidiRun {
    /// First UTF-16 unit of the stretch.
    pub text_position: u32,
    /// UTF-16 units in the stretch.
    pub text_length: u32,
    /// Resolved embedding level.
    pub resolved_level: u8,
}

impl Default for BidiRun {
    fn default() -> (run: BidiRun)
        ensures
            run == (BidiRun { text_position: 0, text_length: 0, resolved_level: 0 }),
    {
        BidiRun { text_position: 0, text_length: 0, resolved_level: 0 }
    }
}

/// A half-open range `[start, end)` in one word: the start in the upper half,
/// the end in the lower.
#[derive(Clone, Copy, Debug, PartialEq, Eq, Structural)]
pub struct RunSpan(pub u64);

impl Default for RunSpan {
    fn default() -> (span: RunSpan)
        ensures
            span == RunSpan(0),
    {
        RunSpan(0)
    }
}

impl RunSpan {
    /// The first index.
    pub open spec fn first(self) -> int {
        self.0 as int / 0x1_0000_0000
    }

    /// The index after the last.
    pub open spec fn limit(self) -> int {
        self.0 as int % 0x1_0000_0000
    }

    /// Packs a range.
    pub fn new(start: u32, end: u32) -> (span: RunSpan)
        ensures
            span.0 == start * 0x1_0000_0000 + end,
            span.first() == start,
            span.limit() == end,
    {
        RunSpan((start as u64) * 0x1_0000_0000 + (end as u64))
    }

    pub fn start(self) -> (start: u32)
        ensures
            start == self.first(),
    {
        (self.0 / 0x1_0000_0000) as u32
    }

    pub fn end(self) -> (end: u32)
        ensures
            end == self.limit(),
    {
        (self.0 % 0x1_0000_0000) as u32
    }
}

/// The variants in their order: normal, bold, italic and both. An identifier has the
/// place of its variant in its upper three bits and that of the face in the rest.
pub proof fn law_order_of_variants(style: Style, index: FontIndex)
    requires
        index.wf(),
    ensures
        Style::of_rank(style.rank()) == style,
        Style::Normal.rank() == 0 && Style::Bold.rank() == 1 && Style::Italic.rank() == 2
            && Style::BoldItalic.rank() == 3,
        index.raw() == index.variant().rank() * 8192 + index.face(),
        0 <= index.face() < 8192,
{
    let raw = index.raw() as int;
    assert(raw == (raw / 8192) * 8192 + raw % 8192);
    assert(0 <= raw / 8192 < 4);
}

/// Text is drawn into the grayscale atlas and an emoji into the colored one.
pub proof fn law_atlas_of_a_presentation()
    ensures
        Presentation::Text.atlas() is Grayscale,
        Presentation::Emoji.atlas() is Color,
{
}

/// A span has its first index in the upper half and its limit in the lower one.
pub proof fn law_parts_of_a_span(span: RunSpan)
    ensures
        span.0 == span.first() * 0x1_0000_0000 + span.limit(),
        0 <= span.first() <= u32::MAX,
        0 <= span.limit() <= u32::MAX,
{
}

} // verus!
