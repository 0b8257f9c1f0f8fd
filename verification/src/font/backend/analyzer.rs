//! Shaping of runs with DirectWrite.
//!
//! The analyzer decides what memory a run needs, which way each segment is
//! shaped and which cells come out. The calls into DirectWrite, and the memory
//! that they fill, belong to whoever drives it.
use crate::font::backend::arena::{
    ArenaResetMode, OutputArena, OutputCaps, OutputElements, OutputGrowth, OutputUsed, ScratchArena,
    ScratchCaps, ScratchElements,
};
#[allow(unused_imports)]
use crate::font::backend::arena::{
    grown_output_caps, grown_scratch_caps, no_output_caps, no_scratch_caps, output_copies,
    output_offsets, output_total, scratch_offsets, scratch_total, used_within,
};
use crate::font::shaper::run_iter::Codepoint;
use crate::font::types::{Cell, RunSpan, TextRun};
use crate::text::utf16_from;
#[allow(unused_imports)]
use crate::text::utf16_of;
use vstd::prelude::*;

verus! {

/// A glyph's shift, as the bit patterns of two floating-point numbers.
#[derive(Clone, Copy, Debug, PartialEq, Eq, Structural)]
pub struct GlyphOffset {
    pub advance_offset: u32,
    pub ascender_offset: u32,
}

/// A glyph's shift in whole pixels.
#[derive(Clone, Copy, Debug, PartialEq, Eq, Structural)]
pub struct PixelOffset {
    pub x: i16,
    pub y: i16,
}

/// What shaping a segment adds to the output.
#[derive(Debug)]
pub struct ShapedSegment {
    pub cells: Vec<Cell>,
    pub cluster_map: Vec<u16>,
    /// Bit patterns of floating-point numbers.
    pub glyph_advances: Vec<u32>,
    pub glyph_offsets: Vec<GlyphOffset>,
}

/// The glyphs of a segment as they were placed: `cluster_map` gives each unit
/// of text the glyph that its cluster begins with.
pub struct PlacedGlyphs<'a> {
    pub cluster_map: &'a [u16],
    pub indices: &'a [u16],
    pub advances: &'a [u32],
    pub offsets: &'a [GlyphOffset],
    pub pixels: &'a [PixelOffset],
}

/// How many glyphs to expect of a text: half as many again as it has units, and
/// sixteen more.
pub open spec fn expected_glyphs(text_len: usize) -> int {
    text_len as int * 3 / 2 + 16
}

pub fn projected_glyphs(text_len: usize) -> (glyphs: usize)
    requires
        text_len * 3 <= usize::MAX,
    ensures
        glyphs == expected_glyphs(text_len),
{
    text_len * 3 / 2 + 16
}

/// The column of a code point in its run.
pub fn cluster_to_cell_x(codepoint: Codepoint) -> (x: u16)
    requires
        codepoint.cluster <= u16::MAX,
    ensures
        x == codepoint.cluster,
{
    codepoint.cluster as u16
}

/// Every code point's column fits a cell.
pub open spec fn clusters_fit(codepoints: Seq<Codepoint>) -> bool {
    forall|i: int| 0 <= i < codepoints.len() ==> (#[trigger] codepoints[i]).cluster <= u16::MAX
}

/// Glyph by glyph as the text goes: each unit has its own glyph, at its own
/// column.
pub open spec fn simple_cells(codepoints: Seq<Codepoint>, indices: Seq<u16>) -> Seq<Cell> {
    Seq::new(
        codepoints.len(),
        |i: int|
            Cell {
                x: codepoints[i].cluster as u16,
                x_offset: 0,
                y_offset: 0,
                glyph_index: indices[i] as u32,
            },
    )
}

/// The cluster map of text that has a glyph for each unit.
pub open spec fn simple_clusters(text_len: nat) -> Seq<u16> {
    Seq::new(text_len + 1, |i: int| i as u16)
}

/// The cluster map with its end: one entry more, the number of glyphs.
pub open spec fn closed_map(cluster_map: Seq<u16>, glyphs: int) -> Seq<u16> {
    cluster_map.push(glyphs as u16)
}

/// The last unit, from `unit` on, that is reached by stepping over clusters
/// that begin no later than `glyph`.
pub open spec fn unit_of_glyph(map: Seq<u16>, glyph: int, unit: int) -> int
    decreases map.len() - unit,
{
    if unit + 1 < map.len() && map[unit + 1] <= glyph {
        unit_of_glyph(map, glyph, unit + 1)
    } else {
        unit
    }
}

/// The least column among the units up to `unit` that begin with the same
/// glyph as it and stand next to each other.
pub open spec fn cluster_column(map: Seq<u16>, codepoints: Seq<Codepoint>, unit: int) -> int
    decreases unit,
{
    let own = codepoints[unit].cluster as int;
    if unit <= 0 || map[unit] != map[unit - 1] {
        own
    } else {
        let before = cluster_column(map, codepoints, unit - 1);
        if own < before {
            own
        } else {
            before
        }
    }
}

/// The cell of a placed glyph: it stands in the column of its cluster.
pub open spec fn complex_cell(
    map: Seq<u16>,
    codepoints: Seq<Codepoint>,
    indices: Seq<u16>,
    pixels: Seq<PixelOffset>,
    glyph: int,
) -> Cell {
    Cell {
        x: cluster_column(map, codepoints, unit_of_glyph(map, glyph, 0)) as u16,
        x_offset: pixels[glyph].x,
        y_offset: pixels[glyph].y,
        glyph_index: indices[glyph] as u32,
    }
}

proof fn lemma_unit_of_glyph_goes_on(map: Seq<u16>, glyph: int, unit: int, from: int)
    requires
        0 <= from <= unit < map.len(),
        forall|i: int| from < i <= unit ==> map[i] <= glyph,
    ensures
        unit_of_glyph(map, glyph, from) == unit_of_glyph(map, glyph, unit),
    decreases unit - from,
{
    if from < unit {
        lemma_unit_of_glyph_goes_on(map, glyph, unit, from + 1);
    }
}

/// A glyph whose cluster map never falls stands in the least column among all
/// the units that begin with the same glyph as the last one that begins no
/// later than it.
pub proof fn law_glyph_stands_in_its_cluster(
    map: Seq<u16>,
    codepoints: Seq<Codepoint>,
    glyph: int,
    unit: int,
)
    requires
        map.len() == codepoints.len() + 1,
        forall|i: int, j: int| 0 <= i <= j < map.len() ==> map[i] <= map[j],
        0 <= glyph < map.last(),
        0 <= unit < codepoints.len(),
        map[unit] <= glyph,
        map[unit + 1] > glyph,
    ensures
        unit_of_glyph(map, glyph, 0) == unit,
        forall|i: int|
            0 <= i < codepoints.len() && map[i] == map[unit] ==> cluster_column(
                map,
                codepoints,
                unit,
            ) <= (#[trigger] codepoints[i]).cluster,
        exists|i: int|
            0 <= i < codepoints.len() && map[i] == map[unit] && (#[trigger] codepoints[i]).cluster
                == cluster_column(map, codepoints, unit),
{
    assert forall|i: int| 0 < i <= unit implies map[i] <= glyph by {
        assert(map[i] <= map[unit]);
    }
    lemma_unit_of_glyph_goes_on(map, glyph, unit, 0);
    assert forall|i: int| 0 <= i < codepoints.len() && map[i] == map[unit] implies i <= unit by {
        if i > unit {
            assert(map[unit + 1] <= map[i]);
        }
    }
    lemma_cluster_column(map, codepoints, unit);
}

proof fn lemma_cluster_column(map: Seq<u16>, codepoints: Seq<Codepoint>, unit: int)
    requires
        map.len() == codepoints.len() + 1,
        forall|i: int, j: int| 0 <= i <= j < map.len() ==> map[i] <= map[j],
        0 <= unit < codepoints.len(),
    ensures
        forall|i: int|
            0 <= i <= unit && map[i] == map[unit] ==> cluster_column(map, codepoints, unit) <= (
            #[trigger] codepoints[i]).cluster,
        exists|i: int|
            0 <= i <= unit && map[i] == map[unit] && (#[trigger] codepoints[i]).cluster
                == cluster_column(map, codepoints, unit),
    decreases unit,
{
    let own = codepoints[unit].cluster as int;
    if unit > 0 && map[unit] == map[unit - 1] {
        lemma_cluster_column(map, codepoints, unit - 1);
        let w = choose|i: int|
            0 <= i <= unit - 1 && map[i] == map[unit - 1] && (#[trigger] codepoints[i]).cluster
                == cluster_column(map, codepoints, unit - 1);
        assert(0 <= w <= unit && map[w] == map[unit]);
    } else if unit > 0 {
        assert forall|i: int| 0 <= i <= unit && map[i] == map[unit] implies i == unit by {
            if i < unit {
                assert(map[i] <= map[unit - 1]);
                assert(map[unit - 1] <= map[unit]);
            }
        }
    }
}

/// A segment of simple text: a glyph for each unit, each as wide as a cell.
pub fn simple_segment(codepoints: &[Codepoint], indices: &[u16], cell_width: u32) -> (segment:
    ShapedSegment)
    requires
        clusters_fit(codepoints@),
        indices@.len() >= codepoints@.len(),
    ensures
        segment.cells@ == simple_cells(codepoints@, indices@),
        segment.cluster_map@ == simple_clusters(codepoints@.len()),
        segment.glyph_advances@ == Seq::new(codepoints@.len(), |i: int| cell_width),
        segment.glyph_offsets@ == Seq::new(
            codepoints@.len(),
            |i: int| (GlyphOffset { advance_offset: 0, ascender_offset: 0 }),
        ),
{
    let n: usize = codepoints.len();
    let mut cells: Vec<Cell> = Vec::new();
    let mut cluster_map: Vec<u16> = Vec::new();
    let mut glyph_advances: Vec<u32> = Vec::new();
    let mut glyph_offsets: Vec<GlyphOffset> = Vec::new();
    let mut i: usize = 0;
    while i < n
        invariant
            n == codepoints@.len(),
            i <= n,
            indices@.len() >= n,
            clusters_fit(codepoints@),
            cells@ == simple_cells(codepoints@, indices@).take(i as int),
            cluster_map@ == simple_clusters(codepoints@.len()).take(i as int),
            glyph_advances@ == Seq::new(i as nat, |i: int| cell_width),
            glyph_offsets@ == Seq::new(
                i as nat,
                |i: int| (GlyphOffset { advance_offset: 0, ascender_offset: 0 }),
            ),
        decreases n - i,
    {
        cluster_map.push(i as u16);
        cells.push(
            Cell {
                x: cluster_to_cell_x(codepoints[i]),
                x_offset: 0,
                y_offset: 0,
                glyph_index: indices[i] as u32,
            },
        );
        glyph_advances.push(cell_width);
        glyph_offsets.push(GlyphOffset { advance_offset: 0, ascender_offset: 0 });
        i += 1;
        assert(cells@ =~= simple_cells(codepoints@, indices@).take(i as int));
        assert(cluster_map@ =~= simple_clusters(codepoints@.len()).take(i as int));
        assert(glyph_advances@ =~= Seq::new(i as nat, |i: int| cell_width));
        assert(glyph_offsets@ =~= Seq::new(
            i as nat,
            |i: int| (GlyphOffset { advance_offset: 0, ascender_offset: 0 }),
        ));
    }
    cluster_map.push(n as u16);
    assert(cluster_map@ =~= simple_clusters(codepoints@.len()));
    assert(cells@ =~= simple_cells(codepoints@, indices@));
    ShapedSegment { cells, cluster_map, glyph_advances, glyph_offsets }
}

/// The cells of placed glyphs: each glyph stands in the column of its cluster.
pub open spec fn complex_cells(codepoints: Seq<Codepoint>, glyphs: PlacedGlyphs) -> Seq<Cell> {
    Seq::new(
        glyphs.indices@.len(),
        |g: int|
            complex_cell(
                closed_map(glyphs.cluster_map@, glyphs.indices@.len() as int),
                codepoints,
                glyphs.indices@,
                glyphs.pixels@,
                g,
            ),
    )
}

/// The glyphs are those of so many units of text.
pub open spec fn placed_for(glyphs: PlacedGlyphs, text_len: nat) -> bool {
    &&& glyphs.cluster_map@.len() == text_len
    &&& glyphs.indices@.len() <= u16::MAX
    &&& glyphs.advances@.len() == glyphs.indices@.len()
    &&& glyphs.offsets@.len() == glyphs.indices@.len()
    &&& glyphs.pixels@.len() == glyphs.indices@.len()
}

/// A segment with placed glyphs.
pub fn complex_segment(codepoints: &[Codepoint], glyphs: &PlacedGlyphs) -> (segment: ShapedSegment)
    requires
        clusters_fit(codepoints@),
        codepoints@.len() > 0,
        placed_for(*glyphs, codepoints@.len()),
    ensures
        segment.cluster_map@ == closed_map(glyphs.cluster_map@, glyphs.indices@.len() as int),
        segment.glyph_advances@ == glyphs.advances@,
        segment.glyph_offsets@ == glyphs.offsets@,
        segment.cells@ == complex_cells(codepoints@, *glyphs),
{
    let n: usize = codepoints.len();
    let count: usize = glyphs.indices.len();
    let mut map: Vec<u16> = copied(glyphs.cluster_map);
    map.push(count as u16);
    let ghost whole = closed_map(glyphs.cluster_map@, count as int);
    assert(map@ =~= whole);
    let mut cells: Vec<Cell> = Vec::new();
    let mut unit: usize = 0;
    let mut cluster_start: u16 = map[0];
    let mut column: u16 = cluster_to_cell_x(codepoints[0]);
    let mut g: usize = 0;
    while g < count
        invariant
            n == codepoints@.len(),
            n > 0,
            count == glyphs.indices@.len(),
            count <= u16::MAX,
            count == glyphs.pixels@.len(),
            clusters_fit(codepoints@),
            map@ == whole,
            map@.len() == n + 1,
            map@[n as int] == count,
            g <= count,
            unit < n,
            cluster_start == map@[unit as int],
            column == cluster_column(map@, codepoints@, unit as int),
            forall|i: int| 0 < i <= unit ==> map@[i] < g,
            cells@ == Seq::new(
                g as nat,
                |g: int|
                    complex_cell(map@, codepoints@, glyphs.indices@, glyphs.pixels@, g),
            ),
        decreases count - g,
    {
        let ghost old_unit = unit;
        while unit + 1 <= n && (map[unit + 1] as usize) <= g
            invariant
                n == codepoints@.len(),
                g < count,
                clusters_fit(codepoints@),
                map@.len() == n + 1,
                map@[n as int] == count,
                unit < n,
                cluster_start == map@[unit as int],
                column == cluster_column(map@, codepoints@, unit as int),
                forall|i: int| 0 < i <= unit ==> map@[i] <= g,
            decreases n - unit,
        {
            unit += 1;
            let next_start: u16 = map[unit];
            let x: u16 = cluster_to_cell_x(codepoints[unit]);
            if next_start != cluster_start {
                cluster_start = next_start;
                column = x;
            } else if x < column {
                column = x;
            }
        }
        proof {
            lemma_unit_of_glyph_goes_on(map@, g as int, unit as int, 0);
        }
        cells.push(
            Cell {
                x: column,
                x_offset: glyphs.pixels[g].x,
                y_offset: glyphs.pixels[g].y,
                glyph_index: glyphs.indices[g] as u32,
            },
        );
        g += 1;
        assert(cells@ =~= Seq::new(
            g as nat,
            |g: int| complex_cell(map@, codepoints@, glyphs.indices@, glyphs.pixels@, g),
        ));
    }
    assert(cells@ =~= complex_cells(codepoints@, *glyphs));
    ShapedSegment {
        cells,
        cluster_map: map,
        glyph_advances: copied(glyphs.advances),
        glyph_offsets: copied(glyphs.offsets),
    }
}

/// Room for half as many glyphs again, and for at least eight more than there
/// is text.
pub open spec fn roomier(glyph_cap: usize, text_len: usize) -> int {
    let half = crate::font::backend::arena::saturated(glyph_cap + glyph_cap / 2);
    if half < text_len + 8 {
        text_len + 8
    } else {
        half
    }
}

/// Whether a segment is simple text: no font features are set, and all of it
/// maps to one glyph a unit. `complexity` is what the analysis of the text
/// says, which is asked for only without features.
pub fn is_simple_segment(has_features: bool, complexity: (bool, u32), text_len: usize) -> (simple:
    bool)
    ensures
        simple == (!has_features && complexity.0 && complexity.1 == text_len),
{
    !has_features && complexity.0 && complexity.1 as usize == text_len
}

/// How shaping of a run begins.
#[derive(Clone, Copy, Debug, PartialEq, Eq, Structural)]
pub enum ShapeStart {
    /// There is no text.
    Empty,
    /// Text and code points differ in number.
    Mismatch { utf16: usize, codepoints: usize },
    /// Make this room, then shape.
    Reserve { output: OutputCaps, scratch: ScratchCaps },
}

/// The spans of a shaped run in the output.
#[derive(Clone, Copy, Debug, PartialEq, Eq, Structural)]
pub struct RunSpans {
    pub cells: RunSpan,
    pub glyphs: RunSpan,
    pub clusters: RunSpan,
}

/// The locale of a text and its zero-terminated UTF-16 form.
pub struct LocaleName {
    name: String,
    utf16: Vec<u16>,
}

impl LocaleName {
    pub closed spec fn text(&self) -> Seq<char> {
        self.name@
    }

    pub closed spec fn units(&self) -> Seq<u16> {
        self.utf16@
    }

    /// No locale.
    pub fn new() -> (locale: LocaleName)
        ensures
            locale.text().len() == 0,
            locale.units().len() == 0,
    {
        LocaleName { name: String::new(), utf16: Vec::new() }
    }

    /// Sets the locale. The result says whether it is another one.
    pub fn set_locale(&mut self, locale: &str) -> (changed: bool)
        ensures
            changed == (locale@ != old(self).text()),
            !changed ==> *final(self) == *old(self),
            changed ==> final(self).text() == locale@ && final(self).units() == utf16_of(
                locale@,
                locale@.len() as int,
            ).push(0),
    {
        let name = locale.to_string();
        if self.name == name {
            return false;
        }
        let mut units = utf16_from(locale);
        units.push(0);
        self.utf16 = units;
        self.name = name;
        true
    }

    pub fn utf16(&self) -> (units: &Vec<u16>)
        ensures
            units@ == self.units(),
    {
        &self.utf16
    }
}

/// The state of shaping: the memory of both arenas and how much of the output
/// is in use.
pub struct DWriteAnalyzer {
    output: OutputArena,
    scratch: ScratchArena,
    used: OutputUsed,
}

/// Nothing is in use.
pub open spec fn nothing_used() -> OutputUsed {
    OutputUsed { runs: 0, spans: 0, cells: 0, cluster: 0, glyph: 0 }
}

/// The room that output needs for more of it.
pub open spec fn output_need(
    used: OutputUsed,
    cells: int,
    glyphs: int,
    clusters: int,
    runs: int,
) -> OutputCaps {
    OutputCaps {
        runs: (used.runs + runs) as usize,
        spans: (used.spans + runs) as usize,
        cells: (used.cells + cells) as usize,
        cluster: (used.cluster + clusters) as usize,
        glyph: (used.glyph + glyphs) as usize,
    }
}

/// These sums fit.
pub open spec fn need_fits(used: OutputUsed, cells: int, glyphs: int, clusters: int, runs: int) ->
    bool {
    &&& used.runs + runs <= usize::MAX
    &&& used.spans + runs <= usize::MAX
    &&& used.cells + cells <= usize::MAX
    &&& used.cluster + clusters <= usize::MAX
    &&& used.glyph + glyphs <= usize::MAX
}

/// The room that scratch memory needs.
pub open spec fn scratch_need(text_len: int, glyphs: int) -> ScratchCaps {
    let runs = if text_len < 1 {
        1
    } else {
        text_len
    };
    ScratchCaps {
        script_runs: runs as usize,
        bidi_runs: runs as usize,
        text: text_len as usize,
        glyph: glyphs as usize,
    }
}

/// What is in use after a segment.
pub open spec fn used_after(used: OutputUsed, text_len: int, glyphs: int) -> OutputUsed {
    OutputUsed {
        cluster: (used.cluster + text_len + 1) as usize,
        cells: (used.cells + glyphs) as usize,
        glyph: (used.glyph + glyphs) as usize,
        ..used
    }
}

/// The spans of what was added since `before`.
pub open spec fn spans_since(before: OutputUsed, now: OutputUsed) -> (int, int, int, int, int, int) {
    (
        (before.cells as u32) as int,
        (now.cells as u32) as int,
        (before.glyph as u32) as int,
        (now.glyph as u32) as int,
        (before.cluster as u32) as int,
        (now.cluster as u32) as int,
    )
}

pub fn scratch_request(text_len: usize, glyphs: usize) -> (caps: ScratchCaps)
    ensures
        caps == scratch_need(text_len as int, glyphs as int),
{
    let runs: usize = if text_len < 1 {
        1
    } else {
        text_len
    };
    ScratchCaps { script_runs: runs, bidi_runs: runs, text: text_len, glyph: glyphs }
}

impl DWriteAnalyzer {
    /// The output arena.
    pub closed spec fn out(&self) -> OutputArena {
        self.output
    }

    /// The scratch arena.
    pub closed spec fn temp(&self) -> ScratchArena {
        self.scratch
    }

    /// How much of the output is in use.
    pub closed spec fn in_use(&self) -> OutputUsed {
        self.used
    }

    /// What is in use lies within the arena.
    pub open spec fn wf(&self) -> bool {
        &&& self.out().wf()
        &&& self.temp().kinds().wf()
        &&& used_within(self.in_use(), self.out().capacities())
    }

    /// An analyzer without memory.
    pub fn new(output: OutputElements, scratch: ScratchElements) -> (analyzer: DWriteAnalyzer)
        requires
            output.wf(),
            scratch.wf(),
        ensures
            analyzer.wf(),
            analyzer.in_use() == nothing_used(),
            analyzer.out().kinds() == output,
            analyzer.out().capacities() == no_output_caps(),
            !analyzer.out().has_block(),
            analyzer.temp().kinds() == scratch,
            analyzer.temp().capacities() == no_scratch_caps(),
    {
        DWriteAnalyzer {
            output: OutputArena::new(output),
            scratch: ScratchArena::new(scratch),
            used: OutputUsed { runs: 0, spans: 0, cells: 0, cluster: 0, glyph: 0 },
        }
    }

    /// The room that output needs for so much more of it.
    pub fn output_request(&self, cells: usize, glyphs: usize, clusters: usize, runs: usize) -> (caps:
        OutputCaps)
        requires
            need_fits(
                self.in_use(),
                cells as int,
                glyphs as int,
                clusters as int,
                runs as int,
            ),
        ensures
            caps == output_need(
                self.in_use(),
                cells as int,
                glyphs as int,
                clusters as int,
                runs as int,
            ),
    {
        OutputCaps {
            runs: self.used.runs + runs,
            spans: self.used.spans + runs,
            cells: self.used.cells + cells,
            cluster: self.used.cluster + clusters,
            glyph: self.used.glyph + glyphs,
        }
    }

    /// The room to make ahead for a view of `max_cells` cells and `max_runs`
    /// runs.
    pub fn reserve_for(&self, max_cells: usize, max_runs: usize) -> (room: (
        OutputCaps,
        ScratchCaps,
    ))
        requires
            max_cells * 3 <= usize::MAX,
            need_fits(
                self.in_use(),
                max_cells as int,
                expected_glyphs(max_cells),
                max_cells + max_runs,
                max_runs as int,
            ),
        ensures
            room.0 == output_need(
                self.in_use(),
                max_cells as int,
                expected_glyphs(max_cells),
                max_cells + max_runs,
                max_runs as int,
            ),
            room.1 == scratch_need(max_cells as int, expected_glyphs(max_cells)),
    {
        let glyphs: usize = projected_glyphs(max_cells);
        (
            self.output_request(max_cells, glyphs, max_cells + max_runs, max_runs),
            scratch_request(max_cells, glyphs),
        )
    }

    /// How the output arena has to grow for a request, if at all.
    pub fn ensure_output(&self, required: OutputCaps) -> (growth: Option<OutputGrowth>)
        requires
            self.wf(),
            output_total(
                self.out().kinds(),
                grown_output_caps(self.out().capacities(), required),
            ) <= usize::MAX,
        ensures
            ({
                let next = grown_output_caps(self.out().capacities(), required);
                if next == self.out().capacities() {
                    growth is None
                } else {
                    growth matches Some(growth) && ({
                        &&& growth.caps == next
                        &&& growth.layout == output_offsets(self.out().kinds(), next)
                        &&& growth.copies@ == if self.out().has_block() {
                            output_copies(
                                self.out().kinds(),
                                self.out().offsets(),
                                growth.layout,
                                self.in_use(),
                            )
                        } else {
                            Seq::empty()
                        }
                    })
                }
            }),
    {
        self.output.ensure(required, self.used)
    }

    /// The output arena has grown.
    pub fn output_grown(&mut self, growth: &OutputGrowth)
        requires
            old(self).wf(),
            used_within(old(self).in_use(), growth.caps),
            output_total(old(self).out().kinds(), growth.caps) <= usize::MAX,
            growth.layout == output_offsets(old(self).out().kinds(), growth.caps),
        ensures
            final(self).wf(),
            final(self).in_use() == old(self).in_use(),
            final(self).temp() == old(self).temp(),
            final(self).out().kinds() == old(self).out().kinds(),
            final(self).out().capacities() == growth.caps,
            final(self).out().offsets() == growth.layout,
            final(self).out().has_block() == (growth.layout.total > 0),
    {
        self.output.grown(growth);
    }

    /// Lays the scratch arena out for a request; see [`ScratchArena::ensure`].
    pub fn ensure_scratch(&mut self, required: ScratchCaps) -> (growth: Option<ScratchCaps>)
        requires
            old(self).wf(),
            grown_scratch_caps(old(self).temp().capacities(), required).text < usize::MAX,
            scratch_total(
                old(self).temp().kinds(),
                grown_scratch_caps(old(self).temp().capacities(), required),
            ) <= usize::MAX,
        ensures
            final(self).wf(),
            final(self).in_use() == old(self).in_use(),
            final(self).out() == old(self).out(),
            final(self).temp().kinds() == old(self).temp().kinds(),
            final(self).temp().capacities() == old(self).temp().capacities(),
            ({
                let next = grown_scratch_caps(old(self).temp().capacities(), required);
                if next == old(self).temp().capacities() {
                    growth is None && final(self).temp().offsets() == old(self).temp().offsets()
                } else {
                    growth == Some(next) && final(self).temp().offsets() == scratch_offsets(
                        old(self).temp().kinds(),
                        next,
                    )
                }
            }),
    {
        self.scratch.ensure(required)
    }

    /// The scratch arena has grown.
    pub fn scratch_grown(&mut self, caps: ScratchCaps)
        requires
            old(self).wf(),
        ensures
            final(self).wf(),
            final(self).in_use() == old(self).in_use(),
            final(self).out() == old(self).out(),
            final(self).temp().kinds() == old(self).temp().kinds(),
            final(self).temp().offsets() == old(self).temp().offsets(),
            final(self).temp().capacities() == caps,
    {
        self.scratch.grown(caps);
    }

    /// Forgets the output of the last run.
    pub fn reset_used_lengths(&mut self)
        requires
            old(self).wf(),
        ensures
            final(self).wf(),
            final(self).in_use() == nothing_used(),
            final(self).out() == old(self).out(),
            final(self).temp() == old(self).temp(),
    {
        self.used = OutputUsed { runs: 0, spans: 0, cells: 0, cluster: 0, glyph: 0 };
    }

    /// Resets both arenas and forgets the output.
    pub fn reset_arenas(&mut self, mode: ArenaResetMode)
        requires
            old(self).wf(),
        ensures
            final(self).wf(),
            final(self).in_use() == nothing_used(),
            mode is RetainCommitted ==> final(self).out() == old(self).out() && final(self).temp()
                == old(self).temp(),
            !(mode is RetainCommitted) ==> final(self).out().capacities() == no_output_caps()
                && final(self).temp().capacities() == no_scratch_caps(),
    {
        self.output.reset(mode);
        self.scratch.reset(mode);
        self.used = OutputUsed { runs: 0, spans: 0, cells: 0, cluster: 0, glyph: 0 };
    }

    /// Begins to shape a run of `utf16` units and as many code points.
    pub fn begin_shape(&mut self, utf16: usize, codepoints: usize) -> (start: ShapeStart)
        requires
            old(self).wf(),
            utf16 * 3 <= usize::MAX,
        ensures
            final(self).wf(),
            final(self).in_use() == nothing_used(),
            final(self).out() == old(self).out(),
            final(self).temp() == old(self).temp(),
            start == if utf16 == 0 {
                ShapeStart::Empty
            } else if utf16 != codepoints {
                ShapeStart::Mismatch { utf16, codepoints }
            } else {
                ShapeStart::Reserve {
                    output: output_need(
                        nothing_used(),
                        utf16 as int,
                        expected_glyphs(utf16),
                        utf16 + 1,
                        utf16 as int,
                    ),
                    scratch: scratch_need(utf16 as int, expected_glyphs(utf16)),
                }
            },
    {
        self.reset_used_lengths();
        if utf16 == 0 {
            return ShapeStart::Empty;
        }
        if utf16 != codepoints {
            return ShapeStart::Mismatch { utf16, codepoints };
        }
        let glyphs: usize = projected_glyphs(utf16);
        ShapeStart::Reserve {
            output: self.output_request(utf16, glyphs, utf16 + 1, utf16),
            scratch: scratch_request(utf16, glyphs),
        }
    }

    /// The room that the output of a simple segment needs.
    pub fn simple_request(&self, text_len: usize) -> (caps: OutputCaps)
        requires
            need_fits(
                self.in_use(),
                text_len as int,
                text_len as int,
                text_len + 1,
                0,
            ),
        ensures
            caps == output_need(
                self.in_use(),
                text_len as int,
                text_len as int,
                text_len + 1,
                0,
            ),
    {
        self.output_request(text_len, text_len, text_len + 1, 0)
    }

    /// The room that the output of a segment with placed glyphs needs.
    pub fn complex_request(&self, text_len: usize, glyphs: usize) -> (caps: OutputCaps)
        requires
            need_fits(
                self.in_use(),
                if text_len < glyphs {
                    glyphs as int
                } else {
                    text_len as int
                },
                glyphs as int,
                text_len + 1,
                0,
            ),
        ensures
            caps == output_need(
                self.in_use(),
                if text_len < glyphs {
                    glyphs as int
                } else {
                    text_len as int
                },
                glyphs as int,
                text_len + 1,
                0,
            ),
    {
        let cells: usize = if text_len < glyphs {
            glyphs
        } else {
            text_len
        };
        self.output_request(cells, glyphs, text_len + 1, 0)
    }

    /// Adds a segment of simple text: a glyph for each unit, each as wide as a
    /// cell. It takes the place in the output that begins where what was in use
    /// ended.
    pub fn emit_simple_segment(
        &mut self,
        codepoints: &[Codepoint],
        indices: &[u16],
        cell_width: u32,
    ) -> (segment: ShapedSegment)
        requires
            old(self).wf(),
            clusters_fit(codepoints@),
            indices@.len() >= codepoints@.len(),
            codepoints@.len() < usize::MAX,
            used_within(
                used_after(
                    old(self).in_use(),
                    codepoints@.len() as int,
                    codepoints@.len() as int,
                ),
                old(self).out().capacities(),
            ),
            need_fits(
                old(self).in_use(),
                codepoints@.len() as int,
                codepoints@.len() as int,
                codepoints@.len() as int + 1,
                0,
            ),
        ensures
            final(self).wf(),
            final(self).out() == old(self).out(),
            final(self).temp() == old(self).temp(),
            final(self).in_use() == used_after(
                old(self).in_use(),
                codepoints@.len() as int,
                codepoints@.len() as int,
            ),
            segment.cells@ == simple_cells(codepoints@, indices@),
            segment.cluster_map@ == simple_clusters(codepoints@.len()),
            segment.glyph_advances@ == Seq::new(codepoints@.len(), |i: int| cell_width),
            segment.glyph_offsets@ == Seq::new(
                codepoints@.len(),
                |i: int| (GlyphOffset { advance_offset: 0, ascender_offset: 0 }),
            ),
    {
        let n: usize = codepoints.len();
        let segment = simple_segment(codepoints, indices, cell_width);
        self.used.cluster = self.used.cluster + (n + 1);
        self.used.cells = self.used.cells + n;
        self.used.glyph = self.used.glyph + n;
        segment
    }

    /// Adds a segment with placed glyphs. Each glyph stands in the column of
    /// its cluster.
    pub fn emit_complex_segment(&mut self, codepoints: &[Codepoint], glyphs: &PlacedGlyphs) -> (
        segment: ShapedSegment)
        requires
            old(self).wf(),
            clusters_fit(codepoints@),
            0 < codepoints@.len() < usize::MAX,
            placed_for(*glyphs, codepoints@.len()),
            used_within(
                used_after(
                    old(self).in_use(),
                    codepoints@.len() as int,
                    glyphs.indices@.len() as int,
                ),
                old(self).out().capacities(),
            ),
            need_fits(
                old(self).in_use(),
                glyphs.indices@.len() as int,
                glyphs.indices@.len() as int,
                codepoints@.len() as int + 1,
                0,
            ),
        ensures
            final(self).wf(),
            final(self).out() == old(self).out(),
            final(self).temp() == old(self).temp(),
            final(self).in_use() == used_after(
                old(self).in_use(),
                codepoints@.len() as int,
                glyphs.indices@.len() as int,
            ),
            segment.cluster_map@ == closed_map(
                glyphs.cluster_map@,
                glyphs.indices@.len() as int,
            ),
            segment.glyph_advances@ == glyphs.advances@,
            segment.glyph_offsets@ == glyphs.offsets@,
            segment.cells@ == complex_cells(codepoints@, *glyphs),
    {
        let n: usize = codepoints.len();
        let count: usize = glyphs.indices.len();
        let segment = complex_segment(codepoints, glyphs);
        self.used.cluster = self.used.cluster + (n + 1);
        self.used.cells = self.used.cells + count;
        self.used.glyph = self.used.glyph + count;
        segment
    }

    /// Adds a run over what was added to the output since `before`. The result
    /// is its spans, which take the next place among the spans.
    pub fn push_run_with_spans(&mut self, before: OutputUsed) -> (spans: RunSpans)
        requires
            old(self).wf(),
            old(self).in_use().runs < old(self).out().capacities().runs,
            old(self).in_use().spans < old(self).out().capacities().spans,
        ensures
            final(self).wf(),
            final(self).out() == old(self).out(),
            final(self).temp() == old(self).temp(),
            final(self).in_use() == (OutputUsed {
                runs: (old(self).in_use().runs + 1) as usize,
                spans: (old(self).in_use().spans + 1) as usize,
                ..old(self).in_use()
            }),
            (
                spans.cells.first(),
                spans.cells.limit(),
                spans.glyphs.first(),
                spans.glyphs.limit(),
                spans.clusters.first(),
                spans.clusters.limit(),
            ) == spans_since(before, old(self).in_use()),
    {
        let spans = RunSpans {
            cells: RunSpan::new(before.cells as u32, self.used.cells as u32),
            glyphs: RunSpan::new(before.glyph as u32, self.used.glyph as u32),
            clusters: RunSpan::new(before.cluster as u32, self.used.cluster as u32),
        };
        self.used.runs = self.used.runs + 1;
        self.used.spans = self.used.spans + 1;
        spans
    }

    /// How much of the output is in use.
    pub fn current_shape(&self) -> (used: OutputUsed)
        ensures
            used == self.in_use(),
    {
        self.used
    }

    /// The output arena.
    pub fn output(&self) -> (arena: &OutputArena)
        ensures
            *arena == self.out(),
    {
        &self.output
    }

    /// The scratch arena.
    pub fn scratch(&self) -> (arena: &ScratchArena)
        ensures
            *arena == self.temp(),
    {
        &self.scratch
    }
}

fn copied<T: Copy>(from: &[T]) -> (to: Vec<T>)
    ensures
        to@ == from@,
{
    let mut to: Vec<T> = Vec::new();
    let mut i: usize = 0;
    while i < from.len()
        invariant
            i <= from@.len(),
            to@ == from@.take(i as int),
        decreases from@.len() - i,
    {
        to.push(from[i]);
        i += 1;
        assert(to@ =~= from@.take(i as int));
    }
    assert(to@ =~= from@);
    to
}

} // verus!
