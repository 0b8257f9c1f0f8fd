//! Shaping a whole run: its segments one after the other.
//!
//! Text analysis and glyphs come from the system, through the functions that
//! are handed in; an error of theirs is a number that ends the shaping.
#[allow(unused_imports)]
use crate::font::backend::analyzer::{
    closed_map, clusters_fit, complex_cells, placed_for, simple_cells, simple_clusters,
};
use crate::font::backend::analyzer::{
    complex_segment, simple_segment, GlyphOffset, PlacedGlyphs, ShapedSegment,
};
use crate::font::backend::glyphs::{GlyphError, SegmentGlyphs};
use crate::font::backend::segments::{run_of_segment, segments, TextSegment};
#[allow(unused_imports)]
use crate::font::backend::segments::{
    bidi_end, ends_fit, script_end, segment_run, segments_from,
};
use crate::font::shaper::run_iter::Codepoint;
use crate::font::types::{BidiRun, Cell, RunSpan, ScriptRun, TextRun};
use vstd::prelude::*;

verus! {

/// Why a run could not be shaped.
#[derive(Clone, Copy, Debug, PartialEq, Eq, Structural)]
pub enum ShapeError {
    /// Text and code points differ in number.
    Mismatch { utf16: usize, codepoints: usize },
    /// The text could not be analyzed.
    Analysis(u32),
    /// A segment got no glyphs.
    Glyphs(GlyphError),
}

/// What shaping gave.
#[verifier::ext_equal]
pub struct ShapedModel {
    pub runs: Seq<TextRun>,
    pub run_cell_spans: Seq<RunSpan>,
    pub run_glyph_spans: Seq<RunSpan>,
    pub run_cluster_spans: Seq<RunSpan>,
    pub cells: Seq<Cell>,
    pub cluster_map: Seq<u16>,
    pub glyph_advances: Seq<u32>,
    pub glyph_offsets: Seq<GlyphOffset>,
}

/// What a segment adds.
#[verifier::ext_equal]
pub struct SegmentModel {
    pub cells: Seq<Cell>,
    pub cluster_map: Seq<u16>,
    pub glyph_advances: Seq<u32>,
    pub glyph_offsets: Seq<GlyphOffset>,
}

/// A span of places.
pub open spec fn span(start: int, end: int) -> RunSpan {
    RunSpan((((start as u32) as int) * 0x1_0000_0000 + ((end as u32) as int)) as u64)
}

/// What a segment with these glyphs adds.
pub open spec fn segment_model(
    codepoints: Seq<Codepoint>,
    cell_width: u32,
    glyphs: SegmentGlyphs,
) -> SegmentModel {
    match glyphs {
        SegmentGlyphs::Simple { indices } => SegmentModel {
            cells: simple_cells(codepoints, indices@),
            cluster_map: simple_clusters(codepoints.len()),
            glyph_advances: Seq::new(codepoints.len(), |i: int| cell_width),
            glyph_offsets: Seq::new(
                codepoints.len(),
                |i: int| (GlyphOffset { advance_offset: 0, ascender_offset: 0 }),
            ),
        },
        SegmentGlyphs::Placed { cluster_map, indices, advances, offsets, pixels } => SegmentModel {
            cells: Seq::new(
                indices@.len(),
                |g: int|
                    crate::font::backend::analyzer::complex_cell(
                        closed_map(cluster_map@, indices@.len() as int),
                        codepoints,
                        indices@,
                        pixels@,
                        g,
                    ),
            ),
            cluster_map: closed_map(cluster_map@, indices@.len() as int),
            glyph_advances: advances@,
            glyph_offsets: offsets@,
        },
    }
}

impl ShapedModel {
    pub open spec fn empty() -> ShapedModel {
        ShapedModel {
            runs: Seq::empty(),
            run_cell_spans: Seq::empty(),
            run_glyph_spans: Seq::empty(),
            run_cluster_spans: Seq::empty(),
            cells: Seq::empty(),
            cluster_map: Seq::empty(),
            glyph_advances: Seq::empty(),
            glyph_offsets: Seq::empty(),
        }
    }

    /// A run is added with what its segment adds, behind everything else.
    pub open spec fn with(self, run: TextRun, segment: SegmentModel) -> ShapedModel {
        ShapedModel {
            runs: self.runs.push(run),
            run_cell_spans: self.run_cell_spans.push(
                span(self.cells.len() as int, (self.cells + segment.cells).len() as int),
            ),
            run_glyph_spans: self.run_glyph_spans.push(
                span(
                    self.glyph_advances.len() as int,
                    (self.glyph_advances + segment.glyph_advances).len() as int,
                ),
            ),
            run_cluster_spans: self.run_cluster_spans.push(
                span(
                    self.cluster_map.len() as int,
                    (self.cluster_map + segment.cluster_map).len() as int,
                ),
            ),
            cells: self.cells + segment.cells,
            cluster_map: self.cluster_map + segment.cluster_map,
            glyph_advances: self.glyph_advances + segment.glyph_advances,
            glyph_offsets: self.glyph_offsets + segment.glyph_offsets,
        }
    }
}

/// The code points of a segment.
pub open spec fn part(codepoints: Seq<Codepoint>, segment: TextSegment) -> Seq<Codepoint> {
    codepoints.subrange(segment.start as int, segment.start + segment.len)
}

/// What the first `n` segments give with their glyphs.
pub open spec fn assembled(
    base: TextRun,
    codepoints: Seq<Codepoint>,
    cell_width: u32,
    segs: Seq<TextSegment>,
    glyphs: Seq<SegmentGlyphs>,
    n: int,
) -> ShapedModel
    decreases n,
{
    if n <= 0 {
        ShapedModel::empty()
    } else {
        assembled(base, codepoints, cell_width, segs, glyphs, n - 1).with(
            segment_run(base, segs[n - 1]),
            segment_model(part(codepoints, segs[n - 1]), cell_width, glyphs[n - 1]),
        )
    }
}

/// What shaping gave: for each run where its cells, glyphs and clusters are.
#[derive(Debug)]
pub struct ShapedCells {
    pub runs: Vec<TextRun>,
    pub run_cell_spans: Vec<RunSpan>,
    pub run_glyph_spans: Vec<RunSpan>,
    pub run_cluster_spans: Vec<RunSpan>,
    pub cells: Vec<Cell>,
    pub cluster_map: Vec<u16>,
    /// Bit patterns of floating-point numbers.
    pub glyph_advances: Vec<u32>,
    pub glyph_offsets: Vec<GlyphOffset>,
}

impl View for ShapedCells {
    type V = ShapedModel;

    open spec fn view(&self) -> ShapedModel {
        ShapedModel {
            runs: self.runs@,
            run_cell_spans: self.run_cell_spans@,
            run_glyph_spans: self.run_glyph_spans@,
            run_cluster_spans: self.run_cluster_spans@,
            cells: self.cells@,
            cluster_map: self.cluster_map@,
            glyph_advances: self.glyph_advances@,
            glyph_offsets: self.glyph_offsets@,
        }
    }
}

fn push_all<T: Copy>(to: &mut Vec<T>, from: &Vec<T>)
    ensures
        final(to)@ == old(to)@ + from@,
{
    let mut i: usize = 0;
    assert(to@ =~= old(to)@ + from@.take(0));
    while i < from.len()
        invariant
            i <= from@.len(),
            to@ == old(to)@ + from@.take(i as int),
        decreases from@.len() - i,
    {
        to.push(from[i]);
        i += 1;
        assert(to@ =~= old(to)@ + from@.take(i as int));
    }
    assert(from@.take(i as int) =~= from@);
}

impl ShapedCells {
    pub fn new() -> (shaped: ShapedCells)
        ensures
            shaped@ == ShapedModel::empty(),
    {
        ShapedCells {
            runs: Vec::new(),
            run_cell_spans: Vec::new(),
            run_glyph_spans: Vec::new(),
            run_cluster_spans: Vec::new(),
            cells: Vec::new(),
            cluster_map: Vec::new(),
            glyph_advances: Vec::new(),
            glyph_offsets: Vec::new(),
        }
    }

    /// Adds a run with what its segment adds.
    pub fn push_run(&mut self, run: TextRun, segment: &ShapedSegment)
        ensures
            final(self)@ == old(self)@.with(
                run,
                SegmentModel {
                    cells: segment.cells@,
                    cluster_map: segment.cluster_map@,
                    glyph_advances: segment.glyph_advances@,
                    glyph_offsets: segment.glyph_offsets@,
                },
            ),
    {
        let cell_start: u32 = self.cells.len() as u32;
        let glyph_start: u32 = self.glyph_advances.len() as u32;
        let cluster_start: u32 = self.cluster_map.len() as u32;
        push_all(&mut self.cells, &segment.cells);
        push_all(&mut self.cluster_map, &segment.cluster_map);
        push_all(&mut self.glyph_advances, &segment.glyph_advances);
        push_all(&mut self.glyph_offsets, &segment.glyph_offsets);
        self.runs.push(run);
        self.run_cell_spans.push(RunSpan::new(cell_start, self.cells.len() as u32));
        self.run_glyph_spans.push(RunSpan::new(glyph_start, self.glyph_advances.len() as u32));
        self.run_cluster_spans.push(RunSpan::new(cluster_start, self.cluster_map.len() as u32));
    }
}

/// The glyphs of a segment as it adds them to the output.
pub fn shaped_segment(codepoints: &[Codepoint], cell_width: u32, glyphs: &SegmentGlyphs) -> (segment:
    ShapedSegment)
    requires
        clusters_fit(codepoints@),
        codepoints@.len() > 0,
        glyphs.fits(codepoints@.len()),
    ensures
        segment_model(codepoints@, cell_width, *glyphs) == (SegmentModel {
            cells: segment.cells@,
            cluster_map: segment.cluster_map@,
            glyph_advances: segment.glyph_advances@,
            glyph_offsets: segment.glyph_offsets@,
        }),
{
    match glyphs {
        SegmentGlyphs::Simple { indices } => simple_segment(
            codepoints,
            indices.as_slice(),
            cell_width,
        ),
        SegmentGlyphs::Placed { cluster_map, indices, advances, offsets, pixels } => {
            let placed = PlacedGlyphs {
                cluster_map: cluster_map.as_slice(),
                indices: indices.as_slice(),
                advances: advances.as_slice(),
                offsets: offsets.as_slice(),
                pixels: pixels.as_slice(),
            };
            let segment = complex_segment(codepoints, &placed);
            assert(segment.cells@ =~= segment_model(codepoints@, cell_width, *glyphs).cells);
            segment
        },
    }
}

/// The segments lie within a text of `text_len` units.
pub open spec fn segments_within(segs: Seq<TextSegment>, text_len: int) -> bool {
    forall|i: int|
        #![trigger segs[i]]
        0 <= i < segs.len() ==> segs[i].start + segs[i].len <= text_len
}

/// The runs made of the segments begin within the columns of a row.
pub open spec fn offsets_fit(base: TextRun, segs: Seq<TextSegment>) -> bool {
    forall|i: int|
        #![trigger segs[i]]
        0 <= i < segs.len() ==> base.offset + (segs[i].start as u16) <= u16::MAX
}

/// No segment is empty.
pub open spec fn segments_hold_text(segs: Seq<TextSegment>) -> bool {
    forall|i: int| #![trigger segs[i]] 0 <= i < segs.len() ==> segs[i].len > 0
}

proof fn lemma_segments_hold_text(scripts: Seq<ScriptRun>, bidis: Seq<BidiRun>, s: int, b: int)
    requires
        ends_fit(scripts, bidis),
    ensures
        segments_hold_text(segments_from(scripts, bidis, s, b)),
    decreases scripts.len() - s + bidis.len() - b,
{
    if 0 <= s < scripts.len() && 0 <= b < bidis.len() {
        let script = scripts[s];
        let bidi = bidis[b];
        if script_end(script) <= bidi_end(bidi) {
            lemma_segments_hold_text(scripts, bidis, s + 1, b);
        } else {
            lemma_segments_hold_text(scripts, bidis, s, b + 1);
        }
    }
}

/// Segment by segment, the system gave these glyphs.
pub open spec fn asked<F: Fn(TextSegment) -> Result<SegmentGlyphs, GlyphError>>(
    ask: F,
    segs: Seq<TextSegment>,
    glyphs: Seq<SegmentGlyphs>,
    n: int,
) -> bool {
    forall|i: int|
        #![trigger segs[i]]
        0 <= i < n ==> ask.ensures((segs[i],), Ok(glyphs[i]))
}

/// What shaping the segments comes to: all of them with their glyphs, or the
/// error of the first that got none.
pub open spec fn segments_outcome<F: Fn(TextSegment) -> Result<SegmentGlyphs, GlyphError>>(
    ask: F,
    base: TextRun,
    codepoints: Seq<Codepoint>,
    cell_width: u32,
    segs: Seq<TextSegment>,
    shaped: Result<ShapedCells, GlyphError>,
) -> bool {
    exists|glyphs: Seq<SegmentGlyphs>|
        {
            &&& #[trigger] asked(ask, segs, glyphs, glyphs.len() as int)
            &&& glyphs.len() <= segs.len()
            &&& match shaped {
                Ok(shaped) => {
                    &&& glyphs.len() == segs.len()
                    &&& shaped@ == assembled(
                        base,
                        codepoints,
                        cell_width,
                        segs,
                        glyphs,
                        segs.len() as int,
                    )
                },
                Err(error) => {
                    &&& glyphs.len() < segs.len()
                    &&& ask.ensures((segs[glyphs.len() as int],), Err(error))
                },
            }
        }
}

proof fn lemma_assembled_grows(
    base: TextRun,
    codepoints: Seq<Codepoint>,
    cell_width: u32,
    segs: Seq<TextSegment>,
    glyphs: Seq<SegmentGlyphs>,
    more: SegmentGlyphs,
    n: int,
)
    requires
        0 <= n <= glyphs.len(),
    ensures
        assembled(base, codepoints, cell_width, segs, glyphs, n) == assembled(
            base,
            codepoints,
            cell_width,
            segs,
            glyphs.push(more),
            n,
        ),
    decreases n,
{
    if n > 0 {
        lemma_assembled_grows(base, codepoints, cell_width, segs, glyphs, more, n - 1);
        assert(glyphs.push(more)[n - 1] == glyphs[n - 1]);
    }
}

/// Shapes the segments one after the other.
pub fn shape_segments<F: Fn(TextSegment) -> Result<SegmentGlyphs, GlyphError>>(
    base: TextRun,
    codepoints: &[Codepoint],
    cell_width: u32,
    segs: &Vec<TextSegment>,
    ask: &F,
) -> (shaped: Result<ShapedCells, GlyphError>)
    requires
        clusters_fit(codepoints@),
        offsets_fit(base, segs@),
        segments_within(segs@, codepoints@.len() as int),
        segments_hold_text(segs@),
        forall|segment: TextSegment| ask.requires((segment,)),
        forall|segment: TextSegment, glyphs: SegmentGlyphs|
            ask.ensures((segment,), Ok(glyphs)) ==> glyphs.fits(segment.len as nat),
    ensures
        segments_outcome(*ask, base, codepoints@, cell_width, segs@, shaped),
{
    let mut shaped = ShapedCells::new();
    let ghost mut glyphs: Seq<SegmentGlyphs> = Seq::empty();
    let mut i: usize = 0;
    while i < segs.len()
        invariant
            i <= segs@.len(),
            glyphs.len() == i,
            clusters_fit(codepoints@),
            offsets_fit(base, segs@),
            segments_within(segs@, codepoints@.len() as int),
            segments_hold_text(segs@),
            forall|segment: TextSegment| ask.requires((segment,)),
            forall|segment: TextSegment, glyphs: SegmentGlyphs|
                ask.ensures((segment,), Ok(glyphs)) ==> glyphs.fits(segment.len as nat),
            asked(*ask, segs@, glyphs, i as int),
            shaped@ == assembled(base, codepoints@, cell_width, segs@, glyphs, i as int),
        decreases segs@.len() - i,
    {
        let segment = segs[i];
        let start: usize = segment.start as usize;
        assert(start + segment.len <= codepoints.len());
        let end: usize = start + segment.len as usize;
        match ask(segment) {
            Ok(found) => {
                let points = vstd::slice::slice_subrange(codepoints, start, end);
                assert(points@ == part(codepoints@, segment));
                assert(clusters_fit(points@));
                let added = shaped_segment(points, cell_width, &found);
                let ghost before = glyphs;
                proof {
                    glyphs = glyphs.push(found);
                    lemma_assembled_grows(
                        base,
                        codepoints@,
                        cell_width,
                        segs@,
                        before,
                        found,
                        i as int,
                    );
                    assert(asked(*ask, segs@, glyphs, i + 1)) by {
                        assert forall|j: int| #![trigger segs@[j]] 0 <= j < i + 1 implies ask.ensures(
                            (segs@[j],),
                            Ok(glyphs[j]),
                        ) by {
                            if j < i {
                                assert(glyphs[j] == before[j]);
                            }
                        }
                    }
                }
                shaped.push_run(run_of_segment(base, segment), &added);
            },
            Err(error) => {
                assert(asked(*ask, segs@, glyphs, glyphs.len() as int));
                return Err(error);
            },
        }
        i += 1;
    }
    assert(asked(*ask, segs@, glyphs, glyphs.len() as int));
    Ok(shaped)
}

/// The stretches that analysis gives are those of a text of `text_len` units,
/// whose runs have a place in the row.
pub open spec fn analysis_fits(
    base: TextRun,
    runs: (Vec<ScriptRun>, Vec<BidiRun>),
    text_len: int,
) -> bool {
    &&& ends_fit(runs.0@, runs.1@)
    &&& offsets_fit(base, segments_from(runs.0@, runs.1@, 0, 0))
    &&& segments_within(segments_from(runs.0@, runs.1@, 0, 0), text_len)
}

/// Whether the stretches that analysis gives are those of a text of `text_len`
/// units, whose runs have a place in the row.
pub fn check_analysis(base: TextRun, runs: &(Vec<ScriptRun>, Vec<BidiRun>), text_len: usize) -> (
    fits: bool)
    ensures
        fits == analysis_fits(base, *runs, text_len as int),
{
    let mut s: usize = 0;
    while s < runs.0.len()
        invariant
            s <= runs.0@.len(),
            forall|i: int| 0 <= i < s ==> script_end(#[trigger] runs.0@[i]) <= u32::MAX,
        decreases runs.0@.len() - s,
    {
        let run = runs.0[s];
        if run.text_length > u32::MAX - run.text_position {
            assert(script_end(runs.0@[s as int]) > u32::MAX);
            return false;
        }
        s += 1;
    }
    let mut b: usize = 0;
    while b < runs.1.len()
        invariant
            b <= runs.1@.len(),
            forall|i: int| 0 <= i < b ==> bidi_end(#[trigger] runs.1@[i]) <= u32::MAX,
        decreases runs.1@.len() - b,
    {
        let run = runs.1[b];
        if run.text_length > u32::MAX - run.text_position {
            assert(bidi_end(runs.1@[b as int]) > u32::MAX);
            return false;
        }
        b += 1;
    }
    let segs = segments(&runs.0, &runs.1);
    let mut i: usize = 0;
    while i < segs.len()
        invariant
            i <= segs@.len(),
            segs@ == segments_from(runs.0@, runs.1@, 0, 0),
            forall|j: int|
                #![trigger segs@[j]]
                0 <= j < i ==> segs@[j].start + segs@[j].len <= text_len && base.offset + (
                segs@[j].start as u16) <= u16::MAX,
        decreases segs@.len() - i,
    {
        let segment = segs[i];
        let end: u64 = segment.start as u64 + segment.len as u64;
        if end > text_len as u64 || segment.start as u16 > u16::MAX - base.offset {
            assert(segs@[i as int] == segment);
            return false;
        }
        i += 1;
    }
    true
}

/// What shaping a run comes to.
pub open spec fn shape_outcome<
    A: Fn(usize) -> Result<(Vec<ScriptRun>, Vec<BidiRun>), u32>,
    F: Fn(TextSegment) -> Result<SegmentGlyphs, GlyphError>,
>(
    analyze: A,
    ask: F,
    base: TextRun,
    codepoints: Seq<Codepoint>,
    utf16: usize,
    cell_width: u32,
    shaped: Result<ShapedCells, ShapeError>,
) -> bool {
    if utf16 == 0 {
        shaped matches Ok(shaped) && shaped@ == ShapedModel::empty()
    } else if utf16 != codepoints.len() {
        shaped == Err::<ShapedCells, ShapeError>(
            ShapeError::Mismatch { utf16, codepoints: codepoints.len() as usize },
        )
    } else {
        ||| (shaped matches Err(ShapeError::Analysis(code)) && analyze.ensures((utf16,), Err(code)))
        ||| exists|runs: (Vec<ScriptRun>, Vec<BidiRun>)|
            {
                &&& #[trigger] analyze.ensures((utf16,), Ok(runs))
                &&& match shaped {
                    Ok(shaped) => segments_outcome(
                        ask,
                        base,
                        codepoints,
                        cell_width,
                        segments_from(runs.0@, runs.1@, 0, 0),
                        Ok(shaped),
                    ),
                    Err(ShapeError::Glyphs(error)) => segments_outcome(
                        ask,
                        base,
                        codepoints,
                        cell_width,
                        segments_from(runs.0@, runs.1@, 0, 0),
                        Err(error),
                    ),
                    _ => false,
                }
            }
    }
}

/// Shapes a run of `utf16` units of text. `analyze` tells the scripts and the
/// directions of the text, `ask` the glyphs of a segment.
pub fn shape<
    A: Fn(usize) -> Result<(Vec<ScriptRun>, Vec<BidiRun>), u32>,
    F: Fn(TextSegment) -> Result<SegmentGlyphs, GlyphError>,
>(
    base: TextRun,
    codepoints: &[Codepoint],
    utf16: usize,
    cell_width: u32,
    analyze: &A,
    ask: &F,
) -> (shaped: Result<ShapedCells, ShapeError>)
    requires
        clusters_fit(codepoints@),
        forall|n: usize| analyze.requires((n,)),
        forall|n: usize, runs: (Vec<ScriptRun>, Vec<BidiRun>)|
            analyze.ensures((n,), Ok(runs)) ==> analysis_fits(base, runs, n as int),
        forall|segment: TextSegment| ask.requires((segment,)),
        forall|segment: TextSegment, glyphs: SegmentGlyphs|
            ask.ensures((segment,), Ok(glyphs)) ==> glyphs.fits(segment.len as nat),
    ensures
        shape_outcome(*analyze, *ask, base, codepoints@, utf16, cell_width, shaped),
{
    if utf16 == 0 {
        return Ok(ShapedCells::new());
    }
    if utf16 != codepoints.len() {
        return Err(ShapeError::Mismatch { utf16, codepoints: codepoints.len() });
    }
    match analyze(utf16) {
        Err(code) => Err(ShapeError::Analysis(code)),
        Ok(runs) => {
            assert(analyze.ensures((utf16,), Ok(runs)));
            assert(analysis_fits(base, runs, utf16 as int));
            let segs = segments(&runs.0, &runs.1);
            proof {
                lemma_segments_hold_text(runs.0@, runs.1@, 0, 0);
            }
            match shape_segments(base, codepoints, cell_width, &segs, ask) {
                Ok(shaped) => Ok(shaped),
                Err(error) => Err(ShapeError::Glyphs(error)),
            }
        },
    }
}

/// The spans of the first `n` runs follow each other without a gap, and the
/// last of them ends where the output ends.
pub open spec fn spans_tile(spans: Seq<RunSpan>, len: int) -> bool {
    &&& spans.len() > 0 ==> spans[0].first() == 0
    &&& spans.len() == 0 ==> len == 0
    &&& spans.len() > 0 ==> spans.last().limit() == len
    &&& forall|i: int, j: int|
        #![trigger spans[i], spans[j]]
        0 <= i && j == i + 1 && j < spans.len() ==> spans[i].limit() == spans[j].first()
}

proof fn lemma_span(start: int, end: int)
    requires
        0 <= start <= u32::MAX,
        0 <= end <= u32::MAX,
    ensures
        span(start, end).first() == start,
        span(start, end).limit() == end,
{
    let value = start * 0x1_0000_0000 + end;
    assert(0 <= value <= u64::MAX);
    assert(value / 0x1_0000_0000 == start && value % 0x1_0000_0000 == end);
}

proof fn lemma_spans_tile(spans: Seq<RunSpan>, len: int, more: int)
    requires
        spans_tile(spans, len),
        0 <= len <= len + more <= u32::MAX,
    ensures
        spans_tile(spans.push(span(len, len + more)), len + more),
{
    lemma_span(len, len + more);
    let all = spans.push(span(len, len + more));
    assert forall|i: int, j: int|
        #![trigger all[i], all[j]]
        0 <= i && j == i + 1 && j < all.len() implies all[i].limit() == all[j].first() by {
        if j < spans.len() {
            assert(spans[i].limit() == spans[j].first());
        }
    }
}

/// Each segment gives a run, at its place in the row, and the runs share the
/// cells, the glyphs and the clusters among them without a gap.
pub proof fn law_runs_share_the_output(
    base: TextRun,
    codepoints: Seq<Codepoint>,
    cell_width: u32,
    segs: Seq<TextSegment>,
    glyphs: Seq<SegmentGlyphs>,
    n: int,
)
    requires
        0 <= n <= segs.len(),
        ({
            let out = assembled(base, codepoints, cell_width, segs, glyphs, n);
            &&& out.cells.len() <= u32::MAX
            &&& out.glyph_advances.len() <= u32::MAX
            &&& out.cluster_map.len() <= u32::MAX
        }),
    ensures
        ({
            let out = assembled(base, codepoints, cell_width, segs, glyphs, n);
            &&& out.runs == Seq::new(n as nat, |i: int| segment_run(base, segs[i]))
            &&& spans_tile(out.run_cell_spans, out.cells.len() as int)
            &&& spans_tile(out.run_glyph_spans, out.glyph_advances.len() as int)
            &&& spans_tile(out.run_cluster_spans, out.cluster_map.len() as int)
        }),
    decreases n,
{
    let out = assembled(base, codepoints, cell_width, segs, glyphs, n);
    if n > 0 {
        let before = assembled(base, codepoints, cell_width, segs, glyphs, n - 1);
        let added = segment_model(part(codepoints, segs[n - 1]), cell_width, glyphs[n - 1]);
        law_runs_share_the_output(base, codepoints, cell_width, segs, glyphs, n - 1);
        lemma_spans_tile(
            before.run_cell_spans,
            before.cells.len() as int,
            added.cells.len() as int,
        );
        lemma_spans_tile(
            before.run_glyph_spans,
            before.glyph_advances.len() as int,
            added.glyph_advances.len() as int,
        );
        lemma_spans_tile(
            before.run_cluster_spans,
            before.cluster_map.len() as int,
            added.cluster_map.len() as int,
        );
    }
    assert(out.runs =~= Seq::new(n as nat, |i: int| segment_run(base, segs[i])));
}

} // verus!
