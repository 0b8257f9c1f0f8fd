//! The shaper: the analyzer with its options.
use crate::font::backend::analyzer::{DWriteAnalyzer, ShapeStart};
#[allow(unused_imports)]
use crate::font::backend::analyzer::{expected_glyphs, nothing_used, output_need, scratch_need};
#[allow(unused_imports)]
use crate::font::backend::analyzer::clusters_fit;
use crate::font::backend::segments::TextSegment;
use crate::font::backend::glyphs::{GlyphError, SegmentGlyphs};
use crate::font::backend::shape::{shape, ShapeError, ShapedCells};
#[allow(unused_imports)]
use crate::font::backend::shape::{analysis_fits, shape_outcome};
use crate::font::settings::FontFeatureSpec;
#[allow(unused_imports)]
use crate::font::shaper::run_iter::{Codepoint, RowModel};
use crate::font::shaper::run_iter::{RunIterator, RunIteratorHook, RunOptions};
use crate::font::types::{BidiRun, ScriptRun, Style, TextRun};
use vstd::prelude::*;

verus! {

/// How text is shaped. The sizes are bit patterns of floating-point numbers.
pub struct ShapeOptions {
    pub locale: String,
    pub font_size: u32,
    pub cell_width: u32,
    pub variant: Style,
    pub features: FontFeatureSpec,
}

/// Shapes runs.
pub struct Shaper {
    analyzer: DWriteAnalyzer,
    shape_options: ShapeOptions,
}

impl Shaper {
    pub closed spec fn engine(&self) -> DWriteAnalyzer {
        self.analyzer
    }

    pub closed spec fn settings(&self) -> ShapeOptions {
        self.shape_options
    }

    pub fn new(analyzer: DWriteAnalyzer, shape_options: ShapeOptions) -> (shaper: Shaper)
        ensures
            shaper.engine() == analyzer,
            shaper.settings() == shape_options,
    {
        Shaper { analyzer, shape_options }
    }

    /// Changes the options.
    pub fn reconfigure(&mut self, shape_options: ShapeOptions)
        ensures
            final(self).engine() == old(self).engine(),
            final(self).settings() == shape_options,
    {
        self.shape_options = shape_options;
    }

    /// Walks over the runs of a row.
    pub fn run_iterator<'a>(&self, opts: RunOptions<'a>) -> (iter: RunIterator<'a>)
        ensures
            iter.wf(),
            iter.position() == 0,
            iter.hook().entries() == Seq::<Codepoint>::empty(),
            iter.hook().units() == Seq::<u16>::empty(),
            iter.row() == (RowModel {
                cells: opts.cells.raw_cells@,
                styles: opts.cells.styles@,
                graphemes: opts.cells.graphemes@,
                selection: opts.selection,
                cursor_x: opts.cursor_x,
            }),
    {
        RunIterator::new(opts, RunIteratorHook::new())
    }

    /// Begins to shape the run whose input the iterator collected last: forgets
    /// the output of the one before, and says what room the run needs.
    pub fn begin(&mut self, hook: &RunIteratorHook) -> (start: ShapeStart)
        requires
            old(self).engine().wf(),
            hook.units().len() * 3 <= usize::MAX,
        ensures
            final(self).settings() == old(self).settings(),
            final(self).engine().wf(),
            final(self).engine().in_use() == nothing_used(),
            final(self).engine().out() == old(self).engine().out(),
            final(self).engine().temp() == old(self).engine().temp(),
            start == if hook.units().len() == 0 {
                ShapeStart::Empty
            } else if hook.units().len() != hook.entries().len() {
                ShapeStart::Mismatch {
                    utf16: hook.units().len() as usize,
                    codepoints: hook.entries().len() as usize,
                }
            } else {
                ShapeStart::Reserve {
                    output: output_need(
                        nothing_used(),
                        hook.units().len() as int,
                        expected_glyphs(hook.units().len() as usize),
                        hook.units().len() as int + 1,
                        hook.units().len() as int,
                    ),
                    scratch: scratch_need(
                        hook.units().len() as int,
                        expected_glyphs(hook.units().len() as usize),
                    ),
                }
            },
    {
        let utf16: usize = hook.utf16().len();
        let codepoints: usize = hook.codepoints().len();
        self.analyzer.begin_shape(utf16, codepoints)
    }

    /// Shapes the run whose input the iterator collected last. `analyze` tells
    /// the scripts and the directions of the text, `ask` the glyphs of a
    /// segment.
    pub fn shape<
        A: Fn(usize) -> Result<(Vec<ScriptRun>, Vec<BidiRun>), u32>,
        F: Fn(TextSegment) -> Result<SegmentGlyphs, GlyphError>,
    >(&self, run: TextRun, hook: &RunIteratorHook, analyze: &A, ask: &F) -> (shaped: Result<
        ShapedCells,
        ShapeError,
    >)
        requires
            clusters_fit(hook.entries()),
            forall|n: usize| analyze.requires((n,)),
            forall|n: usize, runs: (Vec<ScriptRun>, Vec<BidiRun>)|
                analyze.ensures((n,), Ok(runs)) ==> analysis_fits(run, runs, n as int),
            forall|segment: TextSegment| ask.requires((segment,)),
            forall|segment: TextSegment, glyphs: SegmentGlyphs|
                ask.ensures((segment,), Ok(glyphs)) ==> glyphs.fits(segment.len as nat),
        ensures
            shape_outcome(
                *analyze,
                *ask,
                run,
                hook.entries(),
                hook.units().len() as usize,
                self.settings().cell_width,
                shaped,
            ),
    {
        shape(
            run,
            hook.codepoints(),
            hook.utf16().len(),
            self.shape_options.cell_width,
            analyze,
            ask,
        )
    }

    pub fn shape_options(&self) -> (options: &ShapeOptions)
        ensures
            *options == self.settings(),
    {
        &self.shape_options
    }

    pub fn analyzer(&mut self) -> (analyzer: &mut DWriteAnalyzer)
        ensures
            *analyzer == old(self).engine(),
            final(self).engine() == *final(analyzer),
            final(self).settings() == old(self).settings(),
    {
        &mut self.analyzer
    }
}

} // verus!
