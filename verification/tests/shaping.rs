use rustty::font::backend::analyzer::{
    cluster_to_cell_x, is_simple_segment, projected_glyphs, scratch_request, DWriteAnalyzer,
    GlyphOffset, LocaleName, PixelOffset, PlacedGlyphs, ShapeStart,
};
use rustty::font::backend::arena::{
    align_up_to, grow_cap, output_layout, scratch_layout, ArenaResetMode, CopyRange, ElementLayout,
    OutputArena, OutputCaps, OutputElements, OutputUsed, ScratchArena, ScratchCaps,
    ScratchElements,
};
use rustty::font::backend::glyphs::{count_glyphs, segment_glyphs, GlyphError, SegmentGlyphs};
use rustty::font::backend::memory::{VmBuffer, VmGranularity, VmStep, MIN_RESERVE};
use rustty::font::backend::segments::{
    run_of_segment, segments, substitution_length, text_at_position, text_before_position,
    BidiSink, ScriptSink, TextSegment,
};
use rustty::font::backend::shape::{check_analysis, shape, ShapeError, ShapedCells};
use rustty::font::settings::FontFeatureSpec;
use rustty::font::shaper::run_iter::{Codepoint, RunIteratorHook};
use rustty::font::shaper::shaper::{ShapeOptions, Shaper};
use rustty::font::types::{BidiRun, Cell, FontIndex, RunSpan, ScriptRun, Style, TextRun};
use std::cell::RefCell;

fn element(size: usize, align: usize) -> ElementLayout {
    ElementLayout { size, align }
}

fn output_elements() -> OutputElements {
    OutputElements {
        run: element(16, 8),
        span: element(8, 8),
        cell: element(12, 4),
        cluster: element(2, 2),
        advance: element(4, 4),
        offset: element(8, 4),
    }
}

fn scratch_elements() -> ScratchElements {
    ScratchElements {
        script_run: element(16, 4),
        bidi_run: element(12, 4),
        cluster: element(2, 2),
        text_prop: element(2, 2),
        glyph_index: element(2, 2),
        glyph_prop: element(2, 2),
        advance: element(4, 4),
        offset: element(8, 4),
    }
}

fn caps(n: usize) -> OutputCaps {
    OutputCaps { runs: n, spans: n, cells: n, cluster: n, glyph: n }
}

fn used(n: usize) -> OutputUsed {
    OutputUsed { runs: n, spans: n, cells: n, cluster: n, glyph: n }
}

#[test]
fn rounding_up_goes_to_the_next_multiple() {
    assert_eq!(align_up_to(0, 8), 0);
    assert_eq!(align_up_to(1, 8), 8);
    assert_eq!(align_up_to(8, 8), 8);
    assert_eq!(align_up_to(13, 4), 16);
    assert_eq!(align_up_to(7, 1), 7);
}

#[test]
fn capacities_grow_by_half_and_sixteen() {
    assert_eq!(grow_cap(10, 10), 10);
    assert_eq!(grow_cap(10, 11), 31);
    assert_eq!(grow_cap(0, 1), 16);
    assert_eq!(grow_cap(10, 500), 500);
    assert_eq!(grow_cap(usize::MAX - 1, usize::MAX), usize::MAX);
}

#[test]
fn output_arrays_follow_each_other() {
    let layout = output_layout(output_elements(), caps(3));
    assert_eq!(layout.runs, 0);
    assert_eq!(layout.run_cell_spans, 48);
    assert_eq!(layout.run_glyph_spans, 72);
    assert_eq!(layout.run_cluster_spans, 96);
    assert_eq!(layout.cells, 120);
    assert_eq!(layout.cluster_map, 156);
    assert_eq!(layout.glyph_advances, 164);
    assert_eq!(layout.glyph_offsets, 176);
    assert_eq!(layout.total, 200);
}

#[test]
fn output_arena_grows_and_copies_what_is_in_use() {
    let mut arena = OutputArena::new(output_elements());
    let first = arena.ensure(caps(3), used(0)).expect("growth");
    assert_eq!(first.caps, caps(16));
    assert!(first.copies.is_empty());
    arena.grown(&first);
    assert_eq!(arena.layout(), first.layout);
    assert!(arena.ensure(caps(16), used(2)).is_none());

    let second = arena.ensure(caps(17), used(2)).expect("growth");
    assert_eq!(second.caps, caps(40));
    assert_eq!(second.copies.len(), 8);
    assert_eq!(second.copies[0], CopyRange { from: 0, to: 0, len: 32 });
    assert_eq!(
        second.copies[4],
        CopyRange { from: first.layout.cells, to: second.layout.cells, len: 24 }
    );

    arena.grown(&second);
    arena.reset(ArenaResetMode::RetainCommitted);
    assert!(arena.ensure(caps(40), used(0)).is_none());
    arena.reset(ArenaResetMode::Release);
    let again = arena.ensure(caps(1), used(0)).expect("growth");
    assert_eq!(again.caps, caps(16));
    assert!(again.copies.is_empty());
}

#[test]
fn scratch_arena_has_room_for_the_end_of_the_cluster_map() {
    let wanted = ScratchCaps { script_runs: 2, bidi_runs: 2, text: 3, glyph: 4 };
    let layout = scratch_layout(scratch_elements(), wanted);
    assert_eq!(layout.script_runs, 0);
    assert_eq!(layout.bidi_runs, 32);
    assert_eq!(layout.cluster_map, 56);
    // One entry more than there is text.
    assert_eq!(layout.text_props, 64);
    assert_eq!(layout.glyph_indices, 70);
    assert_eq!(layout.glyph_props, 78);
    assert_eq!(layout.glyph_advances, 88);
    assert_eq!(layout.glyph_offsets, 104);
    assert_eq!(layout.total, 136);

    let mut arena = ScratchArena::new(scratch_elements());
    let grown = arena.ensure(wanted).expect("growth");
    assert_eq!(grown, ScratchCaps { script_runs: 16, bidi_runs: 16, text: 16, glyph: 16 });
    arena.grown(grown);
    assert_eq!(arena.glyph_cap(), 16);
    assert_eq!(arena.script_runs_cap(), 16);
    assert_eq!(arena.bidi_runs_cap(), 16);
    assert!(arena.ensure(wanted).is_none());
    arena.reset(ArenaResetMode::Decommit);
    assert_eq!(arena.glyph_cap(), 0);
}

#[test]
fn memory_is_reserved_then_committed() {
    let gran = VmGranularity::of_system(65536, 1000);
    assert_eq!(gran, VmGranularity { reserve: 65536, commit: 4096 });
    let mut block = VmBuffer::new(gran);
    let reserve = block.next_step(10_000, false);
    assert_eq!(reserve, VmStep::Move { reserve: MIN_RESERVE, commit: 0, copy: 0 });
    block.done(reserve);
    let commit = block.next_step(10_000, false);
    assert_eq!(commit, VmStep::Commit { at: 0, len: 12288 });
    block.done(commit);
    assert_eq!(block.next_step(10_000, false), VmStep::Enough);
    assert_eq!(block.next_step(12_289, false), VmStep::Commit { at: 12288, len: 4096 });

    // Too long for the block: twice as much, and what was there comes along.
    assert_eq!(
        block.next_step(MIN_RESERVE + 1, false),
        VmStep::Move { reserve: 2 * MIN_RESERVE, commit: 12288, copy: 12288 }
    );
    let replace = block.next_step(3 * MIN_RESERVE, true);
    assert_eq!(replace, VmStep::Replace { reserve: 3 * MIN_RESERVE });
    block.done(replace);
    assert_eq!(block.committed, 0);
    assert_eq!(block.reserved, 3 * MIN_RESERVE);
}

#[test]
fn two_steps_reach_any_length() {
    let gran = VmGranularity { reserve: 65536, commit: 4096 };
    for required in [1usize, 4096, 70_000, 5_000_000] {
        for discard in [false, true] {
            let mut block = VmBuffer::new(gran);
            for _ in 0..2 {
                let step = block.next_step(required, discard);
                block.done(step);
            }
            assert_eq!(block.next_step(required, discard), VmStep::Enough);
            assert!(block.committed <= block.reserved);
        }
    }
}

#[test]
fn memory_is_reset_in_three_ways() {
    let gran = VmGranularity { reserve: 65536, commit: 4096 };
    let held = VmBuffer { gran, held: true, reserved: 65536, committed: 8192 };
    let mut block = held;
    assert_eq!(block.reset(ArenaResetMode::RetainCommitted), 0);
    assert_eq!(block, held);
    assert_eq!(block.reset(ArenaResetMode::Decommit), 8192);
    assert_eq!(block, VmBuffer { committed: 0, ..held });
    assert_eq!(block.reset(ArenaResetMode::Decommit), 0);
    assert_eq!(block.reset(ArenaResetMode::Release), 0);
    assert_eq!(block, VmBuffer::new(gran));
    block.release();
    assert_eq!(block, VmBuffer::new(gran));
}

fn script(text_position: u32, text_length: u32, script: u16) -> ScriptRun {
    ScriptRun { text_position, text_length, script, shapes: 0 }
}

fn level(text_position: u32, text_length: u32, resolved_level: u8) -> BidiRun {
    BidiRun { text_position, text_length, resolved_level }
}

fn seg(start: u32, len: u32, script: u16, rtl: bool) -> TextSegment {
    TextSegment { start, len, script, shapes: 0, rtl }
}

#[test]
fn segments_are_where_script_and_level_meet() {
    let found = segments(
        &vec![script(0, 4, 1), script(4, 4, 2)],
        &vec![level(0, 2, 0), level(2, 4, 1), level(6, 2, 2)],
    );
    assert_eq!(
        found,
        vec![seg(0, 2, 1, false), seg(2, 2, 1, true), seg(4, 2, 2, true), seg(6, 2, 2, false)]
    );
    // Together they cover the text.
    let mut at: u32 = 0;
    for segment in &found {
        assert_eq!(segment.start, at);
        at += segment.len;
    }
    assert_eq!(at, 8);
    assert!(segments(&vec![], &vec![level(0, 2, 0)]).is_empty());
}

#[test]
fn sinks_keep_what_there_is_room_for() {
    let mut scripts = ScriptSink::new(1);
    scripts.push_script(script(0, 2, 7));
    scripts.push_script(script(2, 2, 8));
    assert_eq!(scripts.finish(4), vec![script(0, 2, 7)]);
    assert_eq!(ScriptSink::new(4).finish(4), vec![script(0, 4, 0)]);

    let mut levels = BidiSink::new(2);
    levels.push_bidi(level(0, 4, 1));
    assert_eq!(levels.finish(4), vec![level(0, 4, 1)]);
    assert_eq!(BidiSink::new(4).finish(9), vec![level(0, 9, 0)]);
}

#[test]
fn text_is_asked_for_by_position() {
    assert_eq!(text_at_position(10, 3), (3, 7));
    assert_eq!(text_at_position(10, 10), (10, 0));
    assert_eq!(text_at_position(10, 12), (10, 0));
    assert_eq!(text_before_position(10, 4), 4);
    assert_eq!(text_before_position(10, 14), 10);
    assert_eq!(substitution_length(10, 4, true), 6);
    assert_eq!(substitution_length(10, 4, false), 0);
}

fn base_run(offset: u16, cells: u16) -> TextRun {
    TextRun { hash: 77, offset, cells, font_index: FontIndex::new(Style::Normal, 3) }
}

#[test]
fn run_of_a_segment_has_its_place_in_the_row() {
    let run = run_of_segment(base_run(5, 8), seg(2, 4, 1, true));
    assert_eq!(run, TextRun { offset: 7, cells: 4, ..base_run(5, 8) });
}

fn points(clusters: &[u32]) -> Vec<Codepoint> {
    clusters.iter().map(|&cluster| Codepoint { codepoint: 0x41, cluster }).collect()
}

fn offset(x: u32) -> GlyphOffset {
    GlyphOffset { advance_offset: x, ascender_offset: 0 }
}

fn pixel(x: i16, y: i16) -> PixelOffset {
    PixelOffset { x, y }
}

fn cell(x: u16, x_offset: i16, y_offset: i16, glyph_index: u32) -> Cell {
    Cell { x, x_offset, y_offset, glyph_index }
}

fn analyzer() -> DWriteAnalyzer {
    let mut analyzer = DWriteAnalyzer::new(output_elements(), scratch_elements());
    let growth = analyzer.ensure_output(caps(100)).expect("growth");
    analyzer.output_grown(&growth);
    analyzer
}

#[test]
fn shaping_begins_with_a_look_at_the_input() {
    let mut analyzer = analyzer();
    assert_eq!(analyzer.begin_shape(0, 4), ShapeStart::Empty);
    assert_eq!(
        analyzer.begin_shape(3, 4),
        ShapeStart::Mismatch { utf16: 3, codepoints: 4 }
    );
    assert_eq!(
        analyzer.begin_shape(4, 4),
        ShapeStart::Reserve {
            output: OutputCaps { runs: 4, spans: 4, cells: 4, cluster: 5, glyph: 22 },
            scratch: ScratchCaps { script_runs: 4, bidi_runs: 4, text: 4, glyph: 22 },
        }
    );
    assert_eq!(projected_glyphs(4), 22);
    assert_eq!(
        scratch_request(0, 5),
        ScratchCaps { script_runs: 1, bidi_runs: 1, text: 0, glyph: 5 }
    );
    let (output, scratch) = analyzer.reserve_for(80, 10);
    assert_eq!(output, OutputCaps { runs: 10, spans: 10, cells: 80, cluster: 90, glyph: 136 });
    assert_eq!(scratch.glyph, 136);
}

#[test]
fn simple_segments_have_a_glyph_for_each_unit() {
    let mut analyzer = analyzer();
    let before = analyzer.current_shape();
    assert_eq!(analyzer.simple_request(3).cluster, 4);
    let segment = analyzer.emit_simple_segment(&points(&[0, 1, 2]), &[10, 11, 12], 99);
    assert_eq!(segment.cells, vec![cell(0, 0, 0, 10), cell(1, 0, 0, 11), cell(2, 0, 0, 12)]);
    assert_eq!(segment.cluster_map, vec![0, 1, 2, 3]);
    assert_eq!(segment.glyph_advances, vec![99, 99, 99]);
    assert_eq!(segment.glyph_offsets, vec![offset(0); 3]);
    let spans = analyzer.push_run_with_spans(before);
    assert_eq!((spans.cells.start(), spans.cells.end()), (0, 3));
    assert_eq!((spans.glyphs.start(), spans.glyphs.end()), (0, 3));
    assert_eq!((spans.clusters.start(), spans.clusters.end()), (0, 4));
    assert_eq!(
        analyzer.current_shape(),
        OutputUsed { runs: 1, spans: 1, cells: 3, cluster: 4, glyph: 3 }
    );
    analyzer.reset_used_lengths();
    assert_eq!(analyzer.current_shape(), used(0));
}

#[test]
fn placed_glyphs_stand_in_their_cluster() {
    let mut analyzer = analyzer();
    // The first two units share the glyphs 0 and 1, the last has glyph 2.
    let segment = analyzer.emit_complex_segment(
        &points(&[3, 2, 5]),
        &PlacedGlyphs {
            cluster_map: &[0, 0, 2],
            indices: &[20, 21, 22],
            advances: &[1, 2, 3],
            offsets: &[offset(4), offset(5), offset(6)],
            pixels: &[pixel(1, -1), pixel(0, 0), pixel(2, 0)],
        },
    );
    assert_eq!(
        segment.cells,
        vec![cell(2, 1, -1, 20), cell(2, 0, 0, 21), cell(5, 2, 0, 22)]
    );
    assert_eq!(segment.cluster_map, vec![0, 0, 2, 3]);
    assert_eq!(segment.glyph_advances, vec![1, 2, 3]);
    assert_eq!(segment.glyph_offsets, vec![offset(4), offset(5), offset(6)]);
    assert_eq!(analyzer.complex_request(3, 5).cells, 8);
    assert_eq!(cluster_to_cell_x(Codepoint { codepoint: 1, cluster: 9 }), 9);
}

#[test]
fn arenas_are_reset_together() {
    let mut analyzer = analyzer();
    analyzer.emit_simple_segment(&points(&[0]), &[1], 0);
    let growth = analyzer.ensure_scratch(scratch_request(3, 20)).expect("growth");
    analyzer.scratch_grown(growth);
    assert_eq!(analyzer.scratch().glyph_cap(), 20);
    analyzer.reset_arenas(ArenaResetMode::Release);
    assert_eq!(analyzer.current_shape(), used(0));
    assert_eq!(analyzer.scratch().glyph_cap(), 0);
    assert_eq!(analyzer.output().layout().total, 0);
    assert!(analyzer.ensure_output(caps(1)).is_some());
}

#[test]
fn locale_is_kept_in_utf16() {
    let mut locale = LocaleName::new();
    assert!(!locale.set_locale(""));
    assert!(locale.utf16().is_empty());
    assert!(locale.set_locale("en"));
    assert_eq!(*locale.utf16(), vec![0x65u16, 0x6e, 0]);
    assert!(!locale.set_locale("en"));
}

#[test]
fn features_rule_simple_text_out() {
    assert!(is_simple_segment(false, (true, 4), 4));
    assert!(!is_simple_segment(true, (true, 4), 4));
    assert!(!is_simple_segment(false, (false, 4), 4));
    assert!(!is_simple_segment(false, (true, 3), 4));
}

#[test]
fn room_grows_until_the_glyphs_fit() {
    let caps_seen: RefCell<Vec<usize>> = RefCell::new(Vec::new());
    let attempt = |cap: usize| {
        caps_seen.borrow_mut().push(cap);
        if cap >= 40 {
            Some(33)
        } else {
            None
        }
    };
    let reserve = |glyphs: usize| Ok::<usize, u32>(glyphs);
    assert_eq!(count_glyphs(&attempt, &reserve, 4, 10, 8), Ok(33));
    assert_eq!(*caps_seen.borrow(), vec![10, 15, 22, 33, 49]);

    let never = |_: usize| None;
    assert_eq!(count_glyphs(&never, &reserve, 4, 10, 8), Err(GlyphError::TooManyAttempts));
    let full = |_: usize| Err::<usize, u32>(14);
    assert_eq!(count_glyphs(&never, &full, 4, 10, 8), Err(GlyphError::System(14)));
    // There is room for at least eight more than there is text.
    let least: RefCell<Vec<usize>> = RefCell::new(Vec::new());
    let note = |glyphs: usize| {
        least.borrow_mut().push(glyphs);
        Ok::<usize, u32>(glyphs)
    };
    assert_eq!(count_glyphs(&never, &note, 4, 0, 1), Err(GlyphError::TooManyAttempts));
    assert_eq!(*least.borrow(), vec![12]);
}

fn placed() -> SegmentGlyphs {
    SegmentGlyphs::Placed {
        cluster_map: vec![0, 1],
        indices: vec![30, 31],
        advances: vec![8, 9],
        offsets: vec![offset(1), offset(2)],
        pixels: vec![pixel(0, 0), pixel(3, 4)],
    }
}

#[test]
fn glyphs_come_simple_or_placed() {
    let simple = |_: usize| Ok::<(bool, u32, Vec<u16>), u32>((true, 2, vec![5, 6]));
    let half = |_: usize| Ok::<(bool, u32, Vec<u16>), u32>((true, 1, vec![5]));
    let refused = |_: usize| Err::<(bool, u32, Vec<u16>), u32>(3);
    let attempt = |_: usize| Some(2u32);
    let reserve = |glyphs: usize| Ok::<usize, u32>(glyphs);
    let place = |n: u32| if n == 2 { Ok(placed()) } else { Err(1u32) };
    let fail = |_: u32| Err::<SegmentGlyphs, u32>(9);

    let found = segment_glyphs(&simple, &attempt, &reserve, &place, false, 2, 8);
    assert!(matches!(found, Ok(SegmentGlyphs::Simple { indices }) if indices == vec![5, 6]));
    // With features the text is not even looked at.
    let found = segment_glyphs(&refused, &attempt, &reserve, &place, true, 2, 8);
    assert!(matches!(found, Ok(SegmentGlyphs::Placed { .. })));
    let found = segment_glyphs(&half, &attempt, &reserve, &place, false, 2, 8);
    assert!(matches!(found, Ok(SegmentGlyphs::Placed { .. })));
    let found = segment_glyphs(&refused, &attempt, &reserve, &place, false, 2, 8);
    assert!(matches!(found, Err(GlyphError::System(3))));
    let found = segment_glyphs(&half, &attempt, &reserve, &fail, false, 2, 8);
    assert!(matches!(found, Err(GlyphError::System(9))));
    let none = |_: usize| None::<u32>;
    let found = segment_glyphs(&half, &none, &reserve, &place, false, 2, 8);
    assert!(matches!(found, Err(GlyphError::TooManyAttempts)));
}

fn spans(list: &[RunSpan]) -> Vec<(u32, u32)> {
    list.iter().map(|span| (span.start(), span.end())).collect()
}

#[test]
fn a_run_is_shaped_segment_by_segment() {
    let analyze = |n: usize| {
        assert_eq!(n, 5);
        Ok::<(Vec<ScriptRun>, Vec<BidiRun>), u32>((
            vec![script(0, 3, 1), script(3, 2, 2)],
            vec![level(0, 5, 0)],
        ))
    };
    let ask = |segment: TextSegment| {
        if segment.script == 1 {
            Ok::<SegmentGlyphs, GlyphError>(SegmentGlyphs::Simple { indices: vec![10, 11, 12] })
        } else {
            Ok(placed())
        }
    };
    let shaped: ShapedCells =
        shape(base_run(4, 5), &points(&[0, 1, 2, 3, 4]), 5, 77, &analyze, &ask).expect("shaped");
    assert_eq!(
        shaped.runs,
        vec![
            TextRun { offset: 4, cells: 3, ..base_run(4, 5) },
            TextRun { offset: 7, cells: 2, ..base_run(4, 5) },
        ]
    );
    assert_eq!(
        shaped.cells,
        vec![
            cell(0, 0, 0, 10),
            cell(1, 0, 0, 11),
            cell(2, 0, 0, 12),
            cell(3, 0, 0, 30),
            cell(4, 3, 4, 31),
        ]
    );
    assert_eq!(shaped.cluster_map, vec![0, 1, 2, 3, 0, 1, 2]);
    assert_eq!(shaped.glyph_advances, vec![77, 77, 77, 8, 9]);
    assert_eq!(spans(&shaped.run_cell_spans), vec![(0, 3), (3, 5)]);
    assert_eq!(spans(&shaped.run_glyph_spans), vec![(0, 3), (3, 5)]);
    assert_eq!(spans(&shaped.run_cluster_spans), vec![(0, 4), (4, 7)]);
}

#[test]
fn shaping_stops_at_the_first_error() {
    let analyze = |_: usize| {
        Ok::<(Vec<ScriptRun>, Vec<BidiRun>), u32>((
            vec![script(0, 1, 1), script(1, 1, 2)],
            vec![level(0, 2, 0)],
        ))
    };
    let asked: RefCell<Vec<u16>> = RefCell::new(Vec::new());
    let ask = |segment: TextSegment| {
        asked.borrow_mut().push(segment.script);
        Err::<SegmentGlyphs, GlyphError>(GlyphError::System(segment.script as u32))
    };
    let run = base_run(0, 2);
    let shaped = shape(run, &points(&[0, 1]), 2, 0, &analyze, &ask);
    assert!(matches!(shaped, Err(ShapeError::Glyphs(GlyphError::System(1)))));
    assert_eq!(*asked.borrow(), vec![1]);
    let shaped = shape(run, &points(&[0, 1]), 3, 0, &analyze, &ask);
    assert!(matches!(shaped, Err(ShapeError::Mismatch { utf16: 3, codepoints: 2 })));
    let refuse = |_: usize| Err::<(Vec<ScriptRun>, Vec<BidiRun>), u32>(6);
    let shaped = shape(run, &points(&[0, 1]), 2, 0, &refuse, &ask);
    assert!(matches!(shaped, Err(ShapeError::Analysis(6))));
    let shaped = shape(run, &points(&[0, 1]), 0, 0, &refuse, &ask).expect("nothing");
    assert!(shaped.runs.is_empty() && shaped.cells.is_empty());
}

fn options(cell_width: u32) -> ShapeOptions {
    ShapeOptions {
        locale: "en-US".to_string(),
        font_size: 0,
        cell_width,
        variant: Style::Normal,
        features: FontFeatureSpec::default(),
    }
}

#[test]
fn shaper_shapes_what_was_collected() {
    let mut shaper = Shaper::new(
        DWriteAnalyzer::new(output_elements(), scratch_elements()),
        options(1),
    );
    shaper.reconfigure(options(42));
    assert_eq!(shaper.shape_options().cell_width, 42);
    let mut hook = RunIteratorHook::new();
    hook.add_codepoint(0x41, 0);
    hook.add_codepoint(0x42, 1);
    assert!(matches!(shaper.begin(&hook), ShapeStart::Reserve { .. }));
    let analyze = |n: usize| {
        Ok::<(Vec<ScriptRun>, Vec<BidiRun>), u32>((
            ScriptSink::new(4).finish(n as u32),
            BidiSink::new(4).finish(n as u32),
        ))
    };
    let ask = |_: TextSegment| {
        Ok::<SegmentGlyphs, GlyphError>(SegmentGlyphs::Simple { indices: vec![1, 2] })
    };
    let shaped = shaper.shape(base_run(0, 2), &hook, &analyze, &ask).expect("shaped");
    assert_eq!(shaped.glyph_advances, vec![42, 42]);
    assert_eq!(shaped.cells, vec![cell(0, 0, 0, 1), cell(1, 0, 0, 2)]);
    assert_eq!(shaper.analyzer().current_shape(), used(0));
}

#[test]
fn an_analysis_stays_within_the_text_and_the_row() {
    let base = |offset: u16| TextRun {
        hash: 0,
        offset,
        cells: 1,
        font_index: FontIndex::new(Style::Normal, 0),
    };
    let runs = (vec![script(0, 4, 1), script(4, 4, 2)], vec![level(0, 8, 0)]);
    assert!(check_analysis(base(0), &runs, 8));
    assert!(!check_analysis(base(0), &runs, 7));
    assert!(check_analysis(base(65_531), &runs, 8));
    assert!(!check_analysis(base(65_532), &runs, 8));
    let beyond = (vec![script(u32::MAX, 1, 1)], vec![]);
    assert!(!check_analysis(base(0), &beyond, 8));
    let beyond = (vec![], vec![level(1, u32::MAX, 1)]);
    assert!(!check_analysis(base(0), &beyond, 8));
}
