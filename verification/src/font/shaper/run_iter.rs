//! Splits a row of cells into runs that are shaped together.
//!
//! A run ends at the edge of the selection, around the cursor, between letters
//! that must not become a ligature, where the style changes in more than its
//! colours, and where the font changes.
use crate::font::collection::FontNeed;
use crate::font::shaper::hash::{run_hash, RunHasher};
use crate::font::shared_grid::{grapheme_point, GridModel, SharedGrid, KITTY_PLACEHOLDER};
use crate::font::types::{FontIndex, Presentation, Style, TextRun};
use crate::ghostty::types::{CellStyle, GraphemeSlice, RawCell, StyleColor};
use crate::text::{is_scalar, push_utf16, utf16_units};
use vstd::prelude::*;

verus! {

/// A code point of a run and the cell that it belongs to, counted from the
/// run's start.
#[derive(Clone, Copy, Debug, PartialEq, Eq, Structural)]
pub struct Codepoint {
    pub codepoint: u32,
    pub cluster: u32,
}

/// A row of cells with their styles and graphemes. The style of a cell counts
/// if its style number is not 0, its grapheme if its tag says so.
pub struct RowCells<'a> {
    pub raw_cells: &'a [RawCell],
    pub styles: &'a [CellStyle],
    pub graphemes: &'a [GraphemeSlice],
}

/// What a row is split by.
pub struct RunOptions<'a> {
    pub cells: RowCells<'a>,
    /// First and last column of the selection.
    pub selection: Option<[u16; 2]>,
    /// Column of the cursor.
    pub cursor_x: Option<usize>,
}

/// Whether a cell holds neither text nor a background colour.
pub open spec fn is_empty(cell: RawCell) -> bool {
    !(cell.tag() <= 1) && !(cell.tag() >= 2)
}

pub fn is_empty_cell(raw: RawCell) -> (empty: bool)
    ensures
        empty == is_empty(raw),
{
    !raw.has_text() && !raw.is_bg_only()
}

/// The number of cells up to the last that is not empty.
pub open spec fn trimmed_len(cells: Seq<RawCell>) -> int
    decreases cells.len(),
{
    if cells.len() > 0 && is_empty(cells.last()) {
        trimmed_len(cells.drop_last())
    } else {
        cells.len() as int
    }
}

/// The number of cells up to the last that is not empty.
pub fn trim_right_empty(raw_cells: &[RawCell]) -> (max: usize)
    ensures
        max == trimmed_len(raw_cells@),
        max <= raw_cells@.len(),
{
    let mut max: usize = raw_cells.len();
    assert(raw_cells@.take(max as int) =~= raw_cells@);
    while max > 0 && is_empty_cell(raw_cells[max - 1])
        invariant
            max <= raw_cells@.len(),
            trimmed_len(raw_cells@) == trimmed_len(raw_cells@.take(max as int)),
        decreases max,
    {
        assert(raw_cells@.take(max as int).drop_last() =~= raw_cells@.take(max - 1));
        max -= 1;
    }
    max
}

/// The style of a cell, unless it is the default style.
pub open spec fn style_of(styles: Seq<CellStyle>, i: int, cell: RawCell) -> Option<CellStyle> {
    if cell.style_number() != 0 && i < styles.len() {
        Some(styles[i])
    } else {
        None
    }
}

pub fn style_at(styles: &[CellStyle], idx: usize, raw: RawCell) -> (style: Option<CellStyle>)
    ensures
        style == style_of(styles@, idx as int, raw),
{
    if raw.style_id() != 0 && idx < styles.len() {
        Some(styles[idx])
    } else {
        None
    }
}

/// The part of a style that a run has in common: the colours of text and
/// background are left out, so that ligatures form across them.
#[derive(Clone, Copy, Debug, PartialEq, Eq, Structural)]
pub struct ComparableStyle {
    pub underline: u32,
    pub flags: u16,
}

/// A style's colour in one word, 0 for none.
pub open spec fn color_word(color: Option<StyleColor>) -> u32 {
    match color {
        Some(c) => (c.r + c.g * 0x100 + c.b * 0x1_0000 + c.tag * 0x100_0000) as u32,
        None => 0,
    }
}

pub fn packed_style_color(color: Option<StyleColor>) -> (word: u32)
    ensures
        word == color_word(color),
{
    match color {
        Some(c) => c.r as u32 + (c.g as u32) * 0x100 + (c.b as u32) * 0x1_0000 + (c.tag as u32)
            * 0x100_0000,
        None => 0,
    }
}

/// What a run has in common of a style.
pub open spec fn comparable(style: Option<CellStyle>) -> ComparableStyle {
    match style {
        Some(s) => ComparableStyle { underline: color_word(Some(s.underline)), flags: s.flags },
        None => ComparableStyle { underline: 0, flags: 0 },
    }
}

pub fn comparable_style(style: Option<CellStyle>) -> (common: ComparableStyle)
    ensures
        common == comparable(style),
{
    match style {
        Some(s) => ComparableStyle {
            underline: packed_style_color(Some(s.underline)),
            flags: s.flags,
        },
        None => ComparableStyle { underline: 0, flags: 0 },
    }
}

/// The font variant that a style asks for.
pub open spec fn variant_of(style: Option<CellStyle>) -> Style {
    match style {
        Some(s) => if s.flag(1) && s.flag(2) {
            Style::BoldItalic
        } else if s.flag(1) {
            Style::Bold
        } else if s.flag(2) {
            Style::Italic
        } else {
            Style::Normal
        },
        None => Style::Normal,
    }
}

pub fn font_variant_from_style(style: Option<CellStyle>) -> (variant: Style)
    ensures
        variant == variant_of(style),
{
    match style {
        Some(s) => {
            let bold: bool = s.is_bold();
            let italic: bool = s.is_italic();
            if bold && italic {
                Style::BoldItalic
            } else if bold {
                Style::Bold
            } else if italic {
                Style::Italic
            } else {
                Style::Normal
            }
        },
        None => Style::Normal,
    }
}

/// A space for a cell without a code point.
pub open spec fn visible_point(codepoint: u32) -> u32 {
    if codepoint == 0 {
        0x20
    } else {
        codepoint
    }
}

pub fn normalize_codepoint(cp: u32) -> (out: u32)
    ensures
        out == visible_point(cp),
{
    if cp == 0 {
        0x20
    } else {
        cp
    }
}

/// Whether two letters must not become a ligature: `fl`, `fi` and `st`.
pub open spec fn bad_ligature(prev: u32, current: u32) -> bool {
    (prev == 'f' as u32 && (current == 'l' as u32 || current == 'i' as u32)) || (prev == 's' as u32
        && current == 't' as u32)
}

pub fn split_bad_ligature(prev: u32, current: u32) -> (split: bool)
    ensures
        split == bad_ligature(prev, current),
{
    (prev == 'f' as u32 && (current == 'l' as u32 || current == 'i' as u32)) || (prev == 's' as u32
        && current == 't' as u32)
}

/// The presentation that a cell's grapheme asks for in its first place.
pub open spec fn presentation_of(cell: RawCell, grapheme: Seq<u32>) -> Option<Presentation> {
    if cell.tag() != 1 || grapheme.len() == 0 {
        None
    } else if grapheme_point(grapheme[0]) == 0xfe0e {
        Some(Presentation::Text)
    } else if grapheme_point(grapheme[0]) == 0xfe0f {
        Some(Presentation::Emoji)
    } else {
        None
    }
}

pub fn cell_presentation(cell: RawCell, grapheme: &[u32]) -> (presentation: Option<Presentation>)
    ensures
        presentation == presentation_of(cell, grapheme@),
{
    if !cell.has_grapheme() || grapheme.len() == 0 {
        return None;
    }
    let first: u32 = grapheme[0] % 0x20_0000;
    if first == 0xfe0e {
        Some(Presentation::Text)
    } else if first == 0xfe0f {
        Some(Presentation::Emoji)
    } else {
        None
    }
}

/// The font of a cell, and the code point shown instead of the cell's own if
/// no font has that.
#[derive(Clone, Copy, Debug, PartialEq, Eq, Structural)]
pub struct FontInfo {
    pub idx: FontIndex,
    pub fallback: Option<u32>,
}

/// The font of a cell: its own, or that of the replacement character, or that
/// of a space.
pub open spec fn font_of(
    grid: GridModel,
    cell: RawCell,
    grapheme: Seq<u32>,
    variant: Style,
) -> Result<Option<FontInfo>, FontNeed> {
    let presentation = presentation_of(cell, grapheme);
    match grid.cell_font(cell, grapheme, variant, presentation) {
        Err(need) => Err(need),
        Ok(Some(idx)) => Ok(Some(FontInfo { idx, fallback: None })),
        Ok(None) => match grid.known(0xfffd, variant, presentation) {
            Err(need) => Err(need),
            Ok(Some(idx)) => Ok(Some(FontInfo { idx, fallback: Some(0xfffd) })),
            Ok(None) => match grid.known(0x20, variant, presentation) {
                Err(need) => Err(need),
                Ok(Some(idx)) => Ok(Some(FontInfo { idx, fallback: Some(0x20) })),
                Ok(None) => Ok(None),
            },
        },
    }
}

fn font_for_cell(grid: &SharedGrid, cell: RawCell, grapheme: &[u32], variant: Style) -> (font: Result<
    Option<FontInfo>,
    FontNeed,
>)
    requires
        grid@.wf(),
    ensures
        font == font_of(grid@, cell, grapheme@, variant),
{
    let presentation = cell_presentation(cell, grapheme);
    match grid.index_for_cell(cell, grapheme, variant, presentation) {
        Err(need) => {
            return Err(need);
        },
        Ok(Some(idx)) => {
            return Ok(Some(FontInfo { idx, fallback: None }));
        },
        Ok(None) => {},
    }
    match grid.known_index(0xfffd, variant, presentation) {
        Err(need) => {
            return Err(need);
        },
        Ok(Some(idx)) => {
            return Ok(Some(FontInfo { idx, fallback: Some(0xfffd) }));
        },
        Ok(None) => {},
    }
    match grid.known_index(0x20, variant, presentation) {
        Err(need) => Err(need),
        Ok(Some(idx)) => Ok(Some(FontInfo { idx, fallback: Some(0x20) })),
        Ok(None) => Ok(None),
    }
}

/// The code points of a grapheme from `i` on, without presentation selectors,
/// at a cluster.
pub open spec fn grapheme_content(grapheme: Seq<u32>, cluster: u32, i: int) -> Seq<(u32, u32)>
    decreases grapheme.len() - i,
{
    if i < 0 || i >= grapheme.len() {
        Seq::empty()
    } else {
        let point = grapheme_point(grapheme[i]);
        let rest = grapheme_content(grapheme, cluster, i + 1);
        if point == 0xfe0e || point == 0xfe0f {
            rest
        } else {
            seq![(point, cluster)] + rest
        }
    }
}

/// What a cell adds to its run's content: the replacement, a space for a
/// picture, or its code point with the rest of its grapheme.
pub open spec fn cell_content(
    cell: RawCell,
    grapheme: Seq<u32>,
    fallback: Option<u32>,
    cluster: u32,
) -> Seq<(u32, u32)> {
    match fallback {
        Some(point) => seq![(point, cluster)],
        None => if cell.point() == KITTY_PLACEHOLDER {
            seq![(0x20u32, cluster)]
        } else if cell.tag() == 1 {
            seq![(visible_point(cell.point() as u32), cluster)] + grapheme_content(
                grapheme,
                cluster,
                0,
            )
        } else {
            seq![(visible_point(cell.point() as u32), cluster)]
        },
    }
}

/// The shaping input of one code point: the code point itself, and a filler
/// after it if it takes two UTF-16 units, so that entries and units stay in
/// step.
pub open spec fn point_entries(point: (u32, u32)) -> Seq<Codepoint> {
    let own = Codepoint { codepoint: point.0, cluster: point.1 };
    if utf16_units(shown_scalar(point.0)).len() == 2 {
        seq![own, Codepoint { codepoint: 0, cluster: point.1 }]
    } else {
        seq![own]
    }
}

/// The scalar value that stands for a code point: itself, or the replacement
/// character.
pub open spec fn shown_scalar(codepoint: u32) -> u32 {
    if is_scalar(codepoint) {
        codepoint
    } else {
        0xfffd
    }
}

/// The shaping input of a run's content.
pub open spec fn content_entries(content: Seq<(u32, u32)>) -> Seq<Codepoint>
    decreases content.len(),
{
    if content.len() == 0 {
        Seq::empty()
    } else {
        content_entries(content.drop_last()) + point_entries(content.last())
    }
}

/// The UTF-16 units of a run's content.
pub open spec fn content_units(content: Seq<(u32, u32)>) -> Seq<u16>
    decreases content.len(),
{
    if content.len() == 0 {
        Seq::empty()
    } else {
        content_units(content.drop_last()) + utf16_units(shown_scalar(content.last().0))
    }
}

/// There is exactly one entry of shaping input for each UTF-16 unit.
pub proof fn law_entries_match_units(content: Seq<(u32, u32)>)
    ensures
        content_entries(content).len() == content_units(content).len(),
    decreases content.len(),
{
    if content.len() > 0 {
        law_entries_match_units(content.drop_last());
    }
}

/// Collects the shaping input of a run.
pub struct RunIteratorHook {
    codepoints: Vec<Codepoint>,
    utf16_buf: Vec<u16>,
}

impl RunIteratorHook {
    /// The entries collected.
    pub closed spec fn entries(&self) -> Seq<Codepoint> {
        self.codepoints@
    }

    /// The UTF-16 units collected.
    pub closed spec fn units(&self) -> Seq<u16> {
        self.utf16_buf@
    }

    /// A hook that has collected nothing.
    pub fn new() -> (hook: RunIteratorHook)
        ensures
            hook.entries() == Seq::<Codepoint>::empty(),
            hook.units() == Seq::<u16>::empty(),
    {
        RunIteratorHook { codepoints: Vec::new(), utf16_buf: Vec::new() }
    }

    /// Drops what was collected.
    pub fn prepare(&mut self)
        ensures
            final(self).entries() == Seq::<Codepoint>::empty(),
            final(self).units() == Seq::<u16>::empty(),
    {
        self.codepoints.clear();
        self.utf16_buf.clear();
    }

    /// Collects a code point.
    pub fn add_codepoint(&mut self, cp: u32, cluster: u32)
        ensures
            final(self).entries() == old(self).entries() + point_entries((cp, cluster)),
            final(self).units() == old(self).units() + utf16_units(shown_scalar(cp)),
    {
        self.codepoints.push(Codepoint { codepoint: cp, cluster });
        let scalar: u32 = match char::from_u32(cp) {
            Some(_) => cp,
            None => 0xfffd,
        };
        let count = push_utf16(&mut self.utf16_buf, scalar);
        if count == 2 {
            self.codepoints.push(Codepoint { codepoint: 0, cluster });
        }
        assert(self.codepoints@ =~= old(self).codepoints@ + point_entries((cp, cluster)));
    }

    /// The entries collected.
    pub fn codepoints(&self) -> (entries: &[Codepoint])
        ensures
            entries@ == self.entries(),
    {
        self.codepoints.as_slice()
    }

    /// The UTF-16 units collected.
    pub fn utf16(&self) -> (units: &[u16])
        ensures
            units@ == self.units(),
    {
        self.utf16_buf.as_slice()
    }
}

impl Default for RunIteratorHook {
    fn default() -> (hook: RunIteratorHook)
        ensures
            hook.entries() == Seq::<Codepoint>::empty(),
            hook.units() == Seq::<u16>::empty(),
    {
        RunIteratorHook::new()
    }
}

/// A row and what it is split by.
pub struct RowModel {
    pub cells: Seq<RawCell>,
    pub styles: Seq<CellStyle>,
    pub graphemes: Seq<GraphemeSlice>,
    pub selection: Option<[u16; 2]>,
    pub cursor_x: Option<usize>,
}

/// How far a run goes.
pub enum Extent {
    /// The run ends before a column, in a font if any cell set one.
    Ended { end: int, font: Option<FontIndex>, content: Seq<(u32, u32)> },
    /// The cell at a column cannot be shown in any font.
    Unrenderable { at: int, content: Seq<(u32, u32)> },
    /// A font has to be looked up or told for the cell at a column.
    Needs { need: FontNeed, at: int, content: Seq<(u32, u32)> },
}

impl Extent {
    /// The column that was reached.
    pub open spec fn reached(self) -> int {
        match self {
            Extent::Ended { end, .. } => end,
            Extent::Unrenderable { at, .. } => at,
            Extent::Needs { at, .. } => at,
        }
    }

    /// What was collected before that column.
    pub open spec fn collected(self) -> Seq<(u32, u32)> {
        match self {
            Extent::Ended { content, .. } => content,
            Extent::Unrenderable { content, .. } => content,
            Extent::Needs { content, .. } => content,
        }
    }
}

impl RowModel {
    /// The style of the cell at a column.
    pub open spec fn style(self, i: int) -> Option<CellStyle> {
        style_of(self.styles, i, self.cells[i])
    }

    /// The rest of the grapheme at a column.
    pub open spec fn grapheme(self, i: int) -> Seq<u32> {
        if self.cells[i].tag() == 1 && i < self.graphemes.len() {
            self.graphemes[i].codepoints@
        } else {
            Seq::empty()
        }
    }

    /// Whether the cell at a column has an invisible style.
    pub open spec fn hidden(self, i: int) -> bool {
        self.style(i) matches Some(style) && style.flag(32)
    }

    /// The first column from `i` on, before `max`, that is not hidden.
    pub open spec fn first_shown(self, i: int, max: int) -> int
        decreases max - i,
    {
        if i < max && self.hidden(i) {
            self.first_shown(i + 1, max)
        } else {
            i
        }
    }

    /// Whether the selection begins or has ended at a column within a run.
    pub open spec fn selection_splits(self, start: int, j: int) -> bool {
        self.selection matches Some(range) && j > start && ((range[0] > 0 && j as u16 == range[0])
            || (range[1] > 0 && j as u16 > range[1]))
    }

    /// Whether a run has to end before a cell because of the cell before it.
    pub open spec fn neighbour_splits(self, start: int, j: int) -> bool {
        j > start && ({
            let prev = self.cells[j - 1];
            let cell = self.cells[j];
            ||| prev.tag() == 0 && cell.tag() == 0 && bad_ligature(
                prev.point() as u32,
                cell.point() as u32,
            )
            ||| prev.style_number() != cell.style_number() && comparable(self.style(start))
                != comparable(self.style(j))
        })
    }

    /// Whether a run has to end before a cell because of the cursor: the
    /// cursor's cell is a run of its own, unless it begins a grapheme.
    pub open spec fn cursor_splits(self, start: int, j: int) -> bool {
        self.cells[j].tag() != 1 && (self.cursor_x matches Some(x) && ((start == x && j == start
            + 1) || (start < x && j == x)))
    }

    /// How far the run from `start` goes, having reached `j` with a font and
    /// content. Spacers belong to the run and add nothing.
    pub open spec fn extent(
        self,
        grid: GridModel,
        max: int,
        start: int,
        j: int,
        font: Option<FontIndex>,
        content: Seq<(u32, u32)>,
    ) -> Extent
        decreases max - j,
    {
        if j >= max || self.selection_splits(start, j) {
            Extent::Ended { end: j, font, content }
        } else if self.cells[j].spacer() {
            self.extent(grid, max, start, j + 1, font, content)
        } else if self.neighbour_splits(start, j) || self.cursor_splits(start, j) {
            Extent::Ended { end: j, font, content }
        } else {
            match font_of(
                grid,
                self.cells[j],
                self.grapheme(j),
                variant_of(self.style(start)),
            ) {
                Err(need) => Extent::Needs { need, at: j, content },
                Ok(None) => Extent::Unrenderable { at: j, content },
                Ok(Some(info)) => if j != start && font != Some(info.idx) {
                    Extent::Ended { end: j, font, content }
                } else {
                    self.extent(
                        grid,
                        max,
                        start,
                        j + 1,
                        Some(info.idx),
                        content + cell_content(
                            self.cells[j],
                            self.grapheme(j),
                            info.fallback,
                            (j - start) as u32,
                        ),
                    )
                },
            }
        }
    }

    /// The content of the cells from `start` up to a column: spacers add
    /// nothing.
    pub open spec fn content_before(self, grid: GridModel, start: int, j: int) -> Seq<(u32, u32)>
        decreases j - start,
    {
        if j <= start {
            Seq::empty()
        } else {
            let before = self.content_before(grid, start, j - 1);
            let cell = self.cells[j - 1];
            match font_of(
                grid,
                cell,
                self.grapheme(j - 1),
                variant_of(self.style(start)),
            ) {
                Ok(Some(info)) if !cell.spacer() => before + cell_content(
                    cell,
                    self.grapheme(j - 1),
                    info.fallback,
                    (j - 1 - start) as u32,
                ),
                _ => before,
            }
        }
    }

    /// The run that begins at the first shown column from `i` on, with its
    /// content and the column after it. There is none at the end of the row,
    /// nor where a cell cannot be shown, nor where the run begins on a spacer.
    pub open spec fn next_run(self, grid: GridModel, max: int, i: int) -> Result<
        Option<(TextRun, Seq<(u32, u32)>, int)>,
        FontNeed,
    > {
        let start = self.first_shown(i, max);
        if start >= max {
            Ok(None)
        } else {
            match self.extent(grid, max, start, start, None, Seq::empty()) {
                Extent::Needs { need, .. } => Err(need),
                Extent::Unrenderable { .. } => Ok(None),
                Extent::Ended { end, font, content } => match font {
                    None => Ok(None),
                    Some(font_index) => {
                        let cells = (end - start) as u16;
                        Ok(
                            Some(
                                (
                                    TextRun {
                                        hash: run_hash(
                                            content,
                                            cells as u32,
                                            font_index.raw() as u64,
                                        ),
                                        offset: start as u16,
                                        cells,
                                        font_index,
                                    },
                                    content,
                                    end,
                                ),
                            ),
                        )
                    },
                },
            }
        }
    }

    /// What is collected from the first shown column from `i` on: the content
    /// of the run that begins there, or of the cells before the one that cannot
    /// be shown or needs a font. At the end of the row nothing is collected
    /// anew.
    pub open spec fn collected(self, grid: GridModel, max: int, i: int) -> Option<
        Seq<(u32, u32)>,
    > {
        let start = self.first_shown(i, max);
        if start >= max {
            None
        } else {
            Some(self.extent(grid, max, start, start, None, Seq::empty()).collected())
        }
    }
}

/// Walks over the runs of a row.
pub struct RunIterator<'a> {
    hooks: RunIteratorHook,
    opts: RunOptions<'a>,
    i: usize,
    max: usize,
}

impl<'a> RunIterator<'a> {
    /// The row that is walked over.
    pub closed spec fn row(&self) -> RowModel {
        RowModel {
            cells: self.opts.cells.raw_cells@,
            styles: self.opts.cells.styles@,
            graphemes: self.opts.cells.graphemes@,
            selection: self.opts.selection,
            cursor_x: self.opts.cursor_x,
        }
    }

    /// The column that comes next.
    pub closed spec fn position(&self) -> int {
        self.i as int
    }

    /// The column at which the row ends.
    pub closed spec fn limit(&self) -> int {
        self.max as int
    }

    /// The shaping input of the last run.
    pub closed spec fn hook(&self) -> RunIteratorHook {
        self.hooks
    }

    pub open spec fn wf(&self) -> bool {
        &&& self.limit() == trimmed_len(self.row().cells)
        &&& self.limit() <= self.row().cells.len()
        &&& 0 <= self.position()
    }

    /// Begins at the first column.
    pub fn new(opts: RunOptions<'a>, hooks: RunIteratorHook) -> (iter: RunIterator<'a>)
        ensures
            iter.wf(),
            iter.position() == 0,
            iter.hook() == hooks,
            iter.row() == (RowModel {
                cells: opts.cells.raw_cells@,
                styles: opts.cells.styles@,
                graphemes: opts.cells.graphemes@,
                selection: opts.selection,
                cursor_x: opts.cursor_x,
            }),
    {
        let max = trim_right_empty(opts.cells.raw_cells);
        RunIterator { hooks, opts, i: 0, max }
    }

    /// The shaping input of the last run.
    pub fn hooks(&self) -> (hooks: &RunIteratorHook)
        ensures
            *hooks == self.hook(),
    {
        &self.hooks
    }

    fn add_codepoint(&mut self, hasher: &mut RunHasher, cp: u32, cluster: u32)
        requires
            old(hasher).wf(),
            old(self).hooks.entries() == content_entries(old(hasher).content()),
            old(self).hooks.units() == content_units(old(hasher).content()),
        ensures
            final(hasher).wf(),
            final(hasher).content() == old(hasher).content().push((cp, cluster)),
            final(self).hooks.entries() == content_entries(final(hasher).content()),
            final(self).hooks.units() == content_units(final(hasher).content()),
            final(self).opts == old(self).opts,
            final(self).i == old(self).i,
            final(self).max == old(self).max,
    {
        let ghost before = hasher.content();
        hasher.add_codepoint(cp, cluster);
        self.hooks.add_codepoint(cp, cluster);
        assert(before.push((cp, cluster)).drop_last() =~= before);
    }

    /// Adds what a cell contributes to the run.
    fn add_cell(
        &mut self,
        hasher: &mut RunHasher,
        cell: RawCell,
        grapheme: &[u32],
        fallback: Option<u32>,
        cluster: u32,
    )
        requires
            old(hasher).wf(),
            old(self).hooks.entries() == content_entries(old(hasher).content()),
            old(self).hooks.units() == content_units(old(hasher).content()),
        ensures
            final(hasher).wf(),
            final(hasher).content() == old(hasher).content() + cell_content(
                cell,
                grapheme@,
                fallback,
                cluster,
            ),
            final(self).hooks.entries() == content_entries(final(hasher).content()),
            final(self).hooks.units() == content_units(final(hasher).content()),
            final(self).opts == old(self).opts,
            final(self).i == old(self).i,
            final(self).max == old(self).max,
    {
        let ghost before = hasher.content();
        if let Some(cp) = fallback {
            self.add_codepoint(hasher, cp, cluster);
            assert(hasher.content() =~= before + cell_content(cell, grapheme@, fallback, cluster));
            return;
        }
        if cell.codepoint() == KITTY_PLACEHOLDER {
            self.add_codepoint(hasher, 0x20, cluster);
            assert(hasher.content() =~= before + cell_content(cell, grapheme@, fallback, cluster));
            return;
        }
        self.add_codepoint(hasher, normalize_codepoint(cell.codepoint()), cluster);
        if cell.has_grapheme() {
            let ghost head = hasher.content();
            let mut k: usize = 0;
            assert(head + grapheme_content(grapheme@, cluster, 0) =~= before + cell_content(
                cell,
                grapheme@,
                fallback,
                cluster,
            ));
            while k < grapheme.len()
                invariant
                    k <= grapheme@.len(),
                    hasher.wf(),
                    self.hooks.entries() == content_entries(hasher.content()),
                    self.hooks.units() == content_units(hasher.content()),
                    self.opts == old(self).opts,
                    self.i == old(self).i,
                    self.max == old(self).max,
                    hasher.content() + grapheme_content(grapheme@, cluster, k as int) == head
                        + grapheme_content(grapheme@, cluster, 0),
                decreases grapheme@.len() - k,
            {
                let point: u32 = grapheme[k] % 0x20_0000;
                let ghost now = hasher.content();
                let ghost rest = grapheme_content(grapheme@, cluster, k + 1);
                if point != 0xfe0e && point != 0xfe0f {
                    self.add_codepoint(hasher, point, cluster);
                    assert(now.push((point, cluster)) + rest =~= now + (seq![(point, cluster)]
                        + rest));
                }
                k += 1;
            }
            assert(hasher.content() + Seq::<(u32, u32)>::empty() =~= hasher.content());
        } else {
            assert(hasher.content() =~= before + cell_content(cell, grapheme@, fallback, cluster));
        }
    }

    /// The next run of the row, or what font has to be looked up or told
    /// first. After that the same call goes on where it stopped.
    #[verifier::rlimit(40)]
    pub fn next(&mut self, grid: &SharedGrid) -> (run: Result<Option<TextRun>, FontNeed>)
        requires
            old(self).wf(),
            grid@.wf(),
        ensures
            final(self).wf(),
            final(self).row() == old(self).row(),
            match old(self).row().next_run(grid@, old(self).limit(), old(self).position()) {
                Ok(Some((found, content, end))) => {
                    &&& run == Ok::<Option<TextRun>, FontNeed>(Some(found))
                    &&& final(self).position() == end
                },
                Ok(None) => {
                    &&& run == Ok::<Option<TextRun>, FontNeed>(None)
                    &&& final(self).position() == old(self).row().first_shown(
                        old(self).position(),
                        old(self).limit(),
                    )
                },
                Err(need) => {
                    &&& run == Err::<Option<TextRun>, FontNeed>(need)
                    &&& final(self).position() == old(self).row().first_shown(
                        old(self).position(),
                        old(self).limit(),
                    )
                },
            },
            match old(self).row().collected(grid@, old(self).limit(), old(self).position()) {
                Some(content) => {
                    &&& final(self).hook().entries() == content_entries(content)
                    &&& final(self).hook().units() == content_units(content)
                },
                None => {
                    &&& final(self).hook().entries() == old(self).hook().entries()
                    &&& final(self).hook().units() == old(self).hook().units()
                },
            },
    {
        let ghost row = self.row();
        let raw_cells = self.opts.cells.raw_cells;
        let styles = self.opts.cells.styles;
        let graphemes = self.opts.cells.graphemes;
        let selection = self.opts.selection;
        let cursor_x = self.opts.cursor_x;
        let max: usize = self.max;
        let ghost from = self.i as int;
        let mut start: usize = self.i;
        while start < max
            invariant_except_break
                row.first_shown(from, max as int) == row.first_shown(start as int, max as int),
            invariant
                *self == *old(self),
                row == self.row(),
                from == self.i,
                max == self.max,
                max <= raw_cells@.len(),
                raw_cells@ == row.cells,
                styles@ == row.styles,
            ensures
                start == row.first_shown(from, max as int),
            decreases max - start,
        {
            let hidden: bool = match style_at(styles, start, raw_cells[start]) {
                Some(style) => style.is_invisible(),
                None => false,
            };
            if !hidden {
                break;
            }
            start += 1;
        }
        self.i = start;
        if start >= max {
            return Ok(None);
        }
        let start_style = style_at(styles, start, raw_cells[start]);
        let variant = font_variant_from_style(start_style);
        self.hooks.prepare();
        let mut hasher = RunHasher::new();
        let mut current_font: Option<FontIndex> = None;
        let mut j: usize = start;
        let ghost whole = row.extent(
            grid@,
            max as int,
            start as int,
            start as int,
            None,
            Seq::empty(),
        );
        while j < max
            invariant_except_break
                whole == row.extent(
                    grid@,
                    max as int,
                    start as int,
                    j as int,
                    current_font,
                    hasher.content(),
                ),
            invariant
                start <= j <= max,
                start < max,
                max <= raw_cells@.len(),
                self.i == start,
                self.max == max,
                max == trimmed_len(row.cells),
                self.row() == row,
                row == old(self).row(),
                raw_cells@ == row.cells,
                styles@ == row.styles,
                graphemes@ == row.graphemes,
                selection == row.selection,
                cursor_x == row.cursor_x,
                start == row.first_shown(from, max as int),
                from == old(self).position(),
                max == old(self).limit(),
                start_style == row.style(start as int),
                variant == variant_of(start_style),
                grid@.wf(),
                whole == row.extent(
                    grid@,
                    max as int,
                    start as int,
                    start as int,
                    None,
                    Seq::empty(),
                ),
                hasher.wf(),
                self.hooks.entries() == content_entries(hasher.content()),
                self.hooks.units() == content_units(hasher.content()),
            ensures
                whole == (Extent::Ended {
                    end: j as int,
                    font: current_font,
                    content: hasher.content(),
                }),
            decreases max - j,
        {
            let cell = raw_cells[j];
            if let Some(range) = selection {
                if j > start {
                    let column: u16 = j as u16;
                    if (range[0] > 0 && column == range[0]) || (range[1] > 0 && column > range[1]) {
                        break;
                    }
                }
            }
            if cell.is_spacer() {
                j += 1;
                continue;
            }
            if j > start {
                let prev = raw_cells[j - 1];
                if prev.content_tag() == 0 && cell.content_tag() == 0 && split_bad_ligature(
                    prev.codepoint(),
                    cell.codepoint(),
                ) {
                    break;
                }
                if prev.style_id() != cell.style_id() {
                    let common = comparable_style(start_style);
                    let own = comparable_style(style_at(styles, j, cell));
                    if common != own {
                        break;
                    }
                }
            }
            if !cell.has_grapheme() {
                if let Some(x) = cursor_x {
                    if (start == x && j - start == 1) || (start < x && j == x) {
                        break;
                    }
                }
            }
            let none: Vec<u32> = Vec::new();
            let grapheme: &[u32] = if cell.has_grapheme() && j < graphemes.len() {
                graphemes[j].codepoints.as_slice()
            } else {
                none.as_slice()
            };
            assert(grapheme@ =~= row.grapheme(j as int));
            let info = match font_for_cell(grid, cell, grapheme, variant) {
                Err(need) => {
                    return Err(need);
                },
                Ok(None) => {
                    return Ok(None);
                },
                Ok(Some(info)) => info,
            };
            if j != start {
                let same: bool = match current_font {
                    Some(font) => font == info.idx,
                    None => false,
                };
                if !same {
                    break;
                }
            }
            current_font = Some(info.idx);
            self.add_cell(&mut hasher, cell, grapheme, info.fallback, (j - start) as u32);
            j += 1;
        }
        let font_index = match current_font {
            Some(font) => font,
            None => {
                return Ok(None);
            },
        };
        self.i = j;
        let cells: u16 = (j - start) as u16;
        let hash: u64 = hasher.finish(cells as u32, font_index.to_u16() as u64);
        Ok(Some(TextRun { hash, offset: start as u16, cells, font_index }))
    }
}

impl RowModel {
    /// Whether the font of the cell at a column is `font`.
    pub open spec fn shown_in(self, grid: GridModel, start: int, k: int, font: FontIndex) -> bool {
        font_of(grid, self.cells[k], self.grapheme(k), variant_of(self.style(start))) matches Ok(
            Some(info),
        ) && info.idx == font
    }

    /// Whether a run from `start` in a font goes on over the cell at a column.
    pub open spec fn goes_on(self, grid: GridModel, start: int, k: int, font: FontIndex) -> bool {
        &&& !self.selection_splits(start, k)
        &&& self.cells[k].spacer() || {
            &&& !self.neighbour_splits(start, k)
            &&& !self.cursor_splits(start, k)
            &&& self.shown_in(grid, start, k, font)
        }
    }
}

proof fn lemma_extent(
    row: RowModel,
    grid: GridModel,
    max: int,
    start: int,
    j: int,
    font: Option<FontIndex>,
    content: Seq<(u32, u32)>,
)
    requires
        0 <= start <= j <= max,
        j == start ==> font is None,
    ensures
        row.extent(grid, max, start, j, font, content) matches Extent::Ended {
            end,
            font: last,
            content: all,
        } ==> {
            &&& j <= end <= max
            &&& font is Some ==> last == font
            &&& last matches Some(used) ==> {
                &&& forall|k: int|
                    j <= k < end ==> row.goes_on(grid, start, #[trigger] row.at(k), used)
                &&& end < max ==> !row.goes_on(grid, start, end, used)
                &&& j == start ==> start < end && !row.cells[start].spacer()
            }
        },
    decreases max - j,
{
    if j >= max || row.selection_splits(start, j) {
    } else if row.cells[j].spacer() {
        if j == start {
            lemma_no_font_after_spacer(row, grid, max, start, j + 1, content);
        }
        lemma_extent(row, grid, max, start, j + 1, font, content);
        assert(row.at(j) == j);
    } else if row.neighbour_splits(start, j) || row.cursor_splits(start, j) {
    } else {
        match font_of(grid, row.cells[j], row.grapheme(j), variant_of(row.style(start))) {
            Ok(Some(info)) => {
                if !(j != start && font != Some(info.idx)) {
                    lemma_extent(
                        row,
                        grid,
                        max,
                        start,
                        j + 1,
                        Some(info.idx),
                        content + cell_content(
                            row.cells[j],
                            row.grapheme(j),
                            info.fallback,
                            (j - start) as u32,
                        ),
                    );
                    assert(row.at(j) == j);
                }
            },
            _ => {},
        }
    }
}

/// A run that begins on a spacer never gets a font.
proof fn lemma_no_font_after_spacer(
    row: RowModel,
    grid: GridModel,
    max: int,
    start: int,
    j: int,
    content: Seq<(u32, u32)>,
)
    requires
        0 <= start < j,
    ensures
        row.extent(grid, max, start, j, None, content) matches Extent::Ended {
            end,
            font,
            content: all,
        } ==> font is None,
    decreases max - j,
{
    if j < max && !row.selection_splits(start, j) && row.cells[j].spacer() {
        lemma_no_font_after_spacer(row, grid, max, start, j + 1, content);
    }
}

proof fn lemma_first_shown(row: RowModel, i: int, max: int)
    requires
        0 <= i,
    ensures
        i <= row.first_shown(i, max),
        i <= max ==> row.first_shown(i, max) <= max,
        forall|k: int| i <= k < row.first_shown(i, max) ==> row.hidden(#[trigger] row.at(k)),
    decreases max - i,
{
    if i < max && row.hidden(i) {
        lemma_first_shown(row, i + 1, max);
        assert(row.at(i) == i);
    }
}

impl RowModel {
    /// A column of the row.
    pub open spec fn at(self, k: int) -> int {
        k
    }
}

/// A run begins at the first cell that is not hidden, holds at least that
/// cell, and goes exactly as far as the selection, the cursor, ligatures,
/// styles and its one font let it: every cell in it could go on the run, and
/// the cell after it, if there is one, could not.
pub proof fn law_runs_are_maximal(row: RowModel, grid: GridModel, max: int, i: int)
    requires
        0 <= i,
        row.next_run(grid, max, i) matches Ok(Some(_)),
    ensures
        row.next_run(grid, max, i) matches Ok(Some((run, content, end))) && ({
            let start = row.first_shown(i, max);
            &&& i <= start < end <= max
            &&& forall|k: int| i <= k < start ==> row.hidden(#[trigger] row.at(k))
            &&& !row.cells[start].spacer()
            &&& run.offset == start as u16
            &&& run.cells == (end - start) as u16
            &&& forall|k: int|
                start <= k < end ==> row.goes_on(
                    grid,
                    start,
                    #[trigger] row.at(k),
                    run.font_index,
                )
            &&& end < max ==> !row.goes_on(grid, start, end, run.font_index)
        }),
{
    let start = row.first_shown(i, max);
    lemma_first_shown(row, i, max);
    lemma_extent(row, grid, max, start, start, None, Seq::empty());
}

proof fn lemma_collected(
    row: RowModel,
    grid: GridModel,
    max: int,
    start: int,
    j: int,
    font: Option<FontIndex>,
)
    requires
        start <= j <= max,
    ensures
        ({
            let extent = row.extent(
                grid,
                max,
                start,
                j,
                font,
                row.content_before(grid, start, j),
            );
            &&& j <= extent.reached() <= max
            &&& extent.collected() == row.content_before(grid, start, extent.reached())
        }),
    decreases max - j,
{
    if j >= max || row.selection_splits(start, j) {
    } else if row.cells[j].spacer() {
        lemma_collected(row, grid, max, start, j + 1, font);
    } else if row.neighbour_splits(start, j) || row.cursor_splits(start, j) {
    } else {
        match font_of(grid, row.cells[j], row.grapheme(j), variant_of(row.style(start))) {
            Ok(Some(info)) => {
                if !(j != start && font != Some(info.idx)) {
                    lemma_collected(row, grid, max, start, j + 1, Some(info.idx));
                }
            },
            _ => {},
        }
    }
}

/// What is collected is the content of the cells before the column that was
/// reached, whether the run ends there, or its cell cannot be shown, or a font
/// is needed for it.
pub proof fn law_cells_before_the_stop_are_collected(
    row: RowModel,
    grid: GridModel,
    max: int,
    i: int,
)
    ensures
        ({
            let start = row.first_shown(i, max);
            let extent = row.extent(grid, max, start, start, None, Seq::empty());
            row.collected(grid, max, i) == if start < max {
                Some(row.content_before(grid, start, extent.reached()))
            } else {
                None
            }
        }),
{
    let start = row.first_shown(i, max);
    if start < max {
        lemma_collected(row, grid, max, start, start, None);
    }
}

/// Where a row has been walked to, and the runs that were found, after a call
/// of [`RunIterator::next`] with each of the grids. What a grid knows may change
/// between calls.
pub open spec fn walked(row: RowModel, grids: Seq<GridModel>) -> (int, Seq<TextRun>)
    decreases grids.len(),
{
    if grids.len() == 0 {
        (0, Seq::empty())
    } else {
        let (at, runs) = walked(row, grids.drop_last());
        let max = trimmed_len(row.cells);
        match row.next_run(grids.last(), max, at) {
            Ok(Some((run, _, end))) => (end, runs.push(run)),
            _ => (row.first_shown(at, max), runs),
        }
    }
}

/// Whether a column lies in one of the runs.
pub open spec fn in_some_run(runs: Seq<TextRun>, c: int) -> bool {
    exists|k: int|
        0 <= k < runs.len() && (#[trigger] runs[k]).offset <= c < runs[k].offset + runs[k].cells
}

impl RowModel {
    /// Whether columns can be numbered, no cell is a spacer, and each cell has
    /// a style, the same for the same style number.
    pub open spec fn is_plain(self) -> bool {
        &&& self.cells.len() <= u16::MAX
        &&& self.styles.len() == self.cells.len()
        &&& forall|c: int| 0 <= c < self.cells.len() ==> !(#[trigger] self.cells[c]).spacer()
        &&& forall|a: int, b: int|
            0 <= a < self.cells.len() && 0 <= b < self.cells.len() && (
            #[trigger] self.cells[a]).style_number() == (#[trigger] self.cells[b]).style_number()
                ==> self.styles[a] == self.styles[b]
    }
}

proof fn lemma_nothing_trimmed(cells: Seq<RawCell>)
    ensures
        trimmed_len(cells) == cells.len(),
{
}

/// A run of a plain row holds no hidden cell.
proof fn lemma_run_is_shown(
    row: RowModel,
    grid: GridModel,
    start: int,
    k: int,
    end: int,
    font: FontIndex,
)
    requires
        row.is_plain(),
        0 <= start <= k < end <= row.cells.len(),
        !row.hidden(start),
        forall|c: int| start <= c < end ==> row.goes_on(grid, start, #[trigger] row.at(c), font),
    ensures
        !row.hidden(k),
    decreases k - start,
{
    if start < k {
        lemma_run_is_shown(row, grid, start, k - 1, end, font);
        assert(row.goes_on(grid, start, row.at(k), font));
        assert(!row.cells[k].spacer());
        assert(!row.neighbour_splits(start, k));
        if row.cells[k - 1].style_number() == row.cells[k].style_number() {
            assert(row.styles[k - 1] == row.styles[k]);
        } else {
            assert(comparable(row.style(start)).flags == comparable(row.style(k)).flags);
            lemma_hidden_by_flags(row.style(start), row.style(k));
        }
    }
}

/// Whether a style is invisible is one of the flags that a run has in common.
proof fn lemma_hidden_by_flags(a: Option<CellStyle>, b: Option<CellStyle>)
    requires
        comparable(a).flags == comparable(b).flags,
    ensures
        (a matches Some(style) && style.flag(32)) == (b matches Some(style) && style.flag(32)),
{
}

proof fn lemma_first_shown_stops(row: RowModel, i: int, max: int)
    ensures
        row.first_shown(i, max) < max ==> !row.hidden(row.first_shown(i, max)),
    decreases max - i,
{
    if i < max && row.hidden(i) {
        lemma_first_shown_stops(row, i + 1, max);
    }
}

/// However often a plain row is asked for its next run, the runs found so far
/// stand one after the other, each has a cell, and they cover exactly the columns
/// gone over that are not hidden.
pub proof fn law_runs_cover_what_is_shown(row: RowModel, grids: Seq<GridModel>)
    requires
        row.is_plain(),
    ensures
        ({
            let (at, runs) = walked(row, grids);
            &&& 0 <= at <= row.cells.len()
            &&& forall|k: int|
                0 <= k < runs.len() ==> (#[trigger] runs[k]).cells >= 1 && runs[k].offset
                    + runs[k].cells <= at
            &&& forall|k: int, l: int|
                0 <= k < l < runs.len() ==> (#[trigger] runs[k]).offset + runs[k].cells <= (
                #[trigger] runs[l]).offset
            &&& forall|c: int|
                0 <= c < at ==> (#[trigger] in_some_run(runs, c) <==> !row.hidden(c))
        }),
    decreases grids.len(),
{
    if grids.len() > 0 {
        law_runs_cover_what_is_shown(row, grids.drop_last());
        let (before, found) = walked(row, grids.drop_last());
        let (at, runs) = walked(row, grids);
        let grid = grids.last();
        let max = trimmed_len(row.cells);
        lemma_nothing_trimmed(row.cells);
        lemma_first_shown(row, before, max);
        lemma_first_shown_stops(row, before, max);
        let start = row.first_shown(before, max);
        match row.next_run(grid, max, before) {
            Ok(Some((run, _, end))) => {
                law_runs_are_maximal(row, grid, max, before);
                assert(run.offset == start && run.cells == end - start);
                assert forall|c: int| 0 <= c < at implies (#[trigger] in_some_run(runs, c)
                    <==> !row.hidden(c)) by {
                    if c < before {
                        assert(in_some_run(found, c) <==> !row.hidden(c));
                        if in_some_run(found, c) {
                            let k = choose|k: int|
                                0 <= k < found.len() && (#[trigger] found[k]).offset <= c
                                    < found[k].offset + found[k].cells;
                            assert(runs[k] == found[k]);
                        }
                        if in_some_run(runs, c) {
                            let k = choose|k: int|
                                0 <= k < runs.len() && (#[trigger] runs[k]).offset <= c
                                    < runs[k].offset + runs[k].cells;
                            assert(k < found.len());
                            assert(found[k] == runs[k]);
                        }
                    } else if c < start {
                        assert(row.hidden(row.at(c)));
                        if in_some_run(runs, c) {
                            let k = choose|k: int|
                                0 <= k < runs.len() && (#[trigger] runs[k]).offset <= c
                                    < runs[k].offset + runs[k].cells;
                            assert(k < found.len());
                            assert(found[k] == runs[k]);
                        }
                    } else {
                        lemma_run_is_shown(row, grid, start, c, end, run.font_index);
                        assert(runs[found.len() as int] == run);
                    }
                }
                assert forall|k: int| 0 <= k < runs.len() implies (#[trigger] runs[k]).cells >= 1
                    && runs[k].offset + runs[k].cells <= at by {
                    if k < found.len() {
                        assert(runs[k] == found[k]);
                    }
                }
                assert forall|k: int, l: int| 0 <= k < l < runs.len() implies (
                #[trigger] runs[k]).offset + runs[k].cells <= (#[trigger] runs[l]).offset by {
                    assert(runs[k] == found[k]);
                    if l < found.len() {
                        assert(runs[l] == found[l]);
                    }
                }
            },
            _ => {
                assert forall|c: int| 0 <= c < at implies (#[trigger] in_some_run(runs, c)
                    <==> !row.hidden(c)) by {
                    if before <= c {
                        assert(row.hidden(row.at(c)));
                    }
                }
            },
        }
    }
}

/// Unless the grid has no font for a space in some style and presentation, a
/// plain row has no next run only at its end: the runs found then cover exactly
/// the columns of the row that are not hidden.
pub proof fn law_all_runs_cover_the_row(row: RowModel, grids: Seq<GridModel>, grid: GridModel)
    requires
        row.is_plain(),
        forall|variant: Style, presentation: Option<Presentation>|
            #[trigger] grid.known(0x20, variant, presentation) != Ok::<Option<FontIndex>, FontNeed>(
                None,
            ),
        row.next_run(grid, trimmed_len(row.cells), walked(row, grids).0) == Ok::<
            Option<(TextRun, Seq<(u32, u32)>, int)>,
            FontNeed,
        >(None),
    ensures
        forall|c: int|
            0 <= c < row.cells.len() ==> (#[trigger] in_some_run(walked(row, grids).1, c)
                <==> !row.hidden(c)),
{
    let max = trimmed_len(row.cells);
    let (at, runs) = walked(row, grids);
    lemma_nothing_trimmed(row.cells);
    law_runs_cover_what_is_shown(row, grids);
    lemma_first_shown(row, at, max);
    let start = row.first_shown(at, max);
    if start < max {
        lemma_always_a_font(row, grid, max, start, start, None, Seq::empty());
        lemma_extent(row, grid, max, start, start, None, Seq::empty());
    }
    assert(start >= max);
    assert forall|c: int| 0 <= c < row.cells.len() implies (#[trigger] in_some_run(runs, c)
        <==> !row.hidden(c)) by {
        if at <= c {
            assert(row.hidden(row.at(c)));
        }
    }
}

/// Unless a space has no font, no cell is without one.
proof fn lemma_always_a_font(
    row: RowModel,
    grid: GridModel,
    max: int,
    start: int,
    j: int,
    font: Option<FontIndex>,
    content: Seq<(u32, u32)>,
)
    requires
        row.is_plain(),
        max == row.cells.len(),
        0 <= start <= j <= max,
        start < max,
        j == start <==> font is None,
        forall|variant: Style, presentation: Option<Presentation>|
            #[trigger] grid.known(0x20, variant, presentation) != Ok::<Option<FontIndex>, FontNeed>(
                None,
            ),
    ensures
        match row.extent(grid, max, start, j, font, content) {
            Extent::Ended { font, .. } => font is Some,
            Extent::Unrenderable { .. } => false,
            Extent::Needs { .. } => true,
        },
    decreases max - j,
{
    if j < max && !row.selection_splits(start, j) {
        assert(!row.cells[j].spacer());
        if !row.neighbour_splits(start, j) && !row.cursor_splits(start, j) {
            match font_of(grid, row.cells[j], row.grapheme(j), variant_of(row.style(start))) {
                Ok(Some(info)) => {
                    if !(j != start && font != Some(info.idx)) {
                        lemma_always_a_font(
                            row,
                            grid,
                            max,
                            start,
                            j + 1,
                            Some(info.idx),
                            content + cell_content(
                                row.cells[j],
                                row.grapheme(j),
                                info.fallback,
                                (j - start) as u32,
                            ),
                        );
                    }
                },
                _ => {},
            }
        }
    }
}

/// The hash of a run is that of its content, length and font: where in a row
/// the run stands does not matter.
pub proof fn law_hash_ignores_position(
    a: RowModel,
    a_grid: GridModel,
    a_max: int,
    a_i: int,
    b: RowModel,
    b_grid: GridModel,
    b_max: int,
    b_i: int,
)
    requires
        a.next_run(a_grid, a_max, a_i) matches Ok(Some(_)),
        b.next_run(b_grid, b_max, b_i) matches Ok(Some(_)),
    ensures
        a.next_run(a_grid, a_max, a_i) matches Ok(Some((a_run, a_content, _))) && (b.next_run(
            b_grid,
            b_max,
            b_i,
        ) matches Ok(Some((b_run, b_content, _))) && (a_content == b_content && a_run.cells
            == b_run.cells && a_run.font_index == b_run.font_index ==> a_run.hash == b_run.hash)),
{
}

/// Colours of text and background alone never end a run.
pub proof fn law_colors_do_not_split(a: CellStyle, b: CellStyle)
    requires
        a.underline == b.underline,
        a.flags == b.flags,
    ensures
        comparable(Some(a)) == comparable(Some(b)),
        variant_of(Some(a)) == variant_of(Some(b)),
{
}

} // verus!
