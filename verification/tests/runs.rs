use rustty::font::collection::{Collection, FontNeed};
use rustty::font::shaper::hash::RunHasher;
use rustty::font::shaper::run_iter::{
    Codepoint, RowCells, RunIterator, RunIteratorHook, RunOptions,
};
use rustty::font::shared_grid::{GridMetrics, SharedGrid};
use rustty::font::types::{FontIndex, Style, TextRun};
use rustty::ghostty::types::{CellStyle, GraphemeSlice, RawCell, StyleColor};

fn face(id: u16) -> FontIndex {
    FontIndex::new(Style::Normal, id)
}

fn raw_codepoint(cp: u32, style_id: u16) -> RawCell {
    RawCell::from_word(((cp as u64) << 2) | ((style_id as u64) << 26))
}

fn raw_grapheme_codepoint(cp: u32, style_id: u16) -> RawCell {
    RawCell::from_word(1u64 | ((cp as u64) << 2) | ((style_id as u64) << 26))
}

fn raw_spacer(style_id: u16) -> RawCell {
    RawCell::from_word(((style_id as u64) << 26) | ((2u64) << 42))
}

fn style(fg_tag: u8, fg_r: u8, flags: u16) -> CellStyle {
    let none = StyleColor { r: 0, g: 0, b: 0, tag: 0 };
    CellStyle {
        fg: StyleColor { r: fg_r, g: 0, b: 0, tag: fg_tag },
        bg: none,
        underline: none,
        flags,
    }
}

fn empty_grapheme_slice() -> GraphemeSlice {
    GraphemeSlice { codepoints: Vec::new() }
}

fn no_graphemes(n: usize) -> Vec<GraphemeSlice> {
    (0..n).map(|_| empty_grapheme_slice()).collect()
}

fn build_grid(mapping: &[(u32, FontIndex)]) -> SharedGrid {
    let mut grid = SharedGrid::with_collection(Collection::new(), GridMetrics::default());
    for &(cp, idx) in mapping {
        grid.prime_index(cp, Style::Normal, None, Some(idx));
    }
    grid
}

// Answers a need the way a font would that has a coloured glyph for everything.
fn answer(grid: &mut SharedGrid, need: FontNeed) {
    match need {
        FontNeed::Index { codepoint, style, presentation } => {
            if let Err(inner) = grid.get_index(codepoint, style, presentation) {
                answer(grid, inner);
            }
        }
        FontNeed::Glyph { index, codepoint } => grid.tell_glyph(index, codepoint, 5),
        FontNeed::Color { index, glyph } => grid.tell_color(index, glyph, true),
        FontNeed::Fallback { codepoint } => grid.tell_fallback(codepoint, None),
    }
}

fn next_run(it: &mut RunIterator<'_>, grid: &mut SharedGrid) -> Option<TextRun> {
    loop {
        match it.next(grid) {
            Ok(run) => return run,
            Err(need) => answer(grid, need),
        }
    }
}

fn collect_runs(
    raw: &[RawCell],
    styles: &[CellStyle],
    graphemes: &[GraphemeSlice],
    selection: Option<[u16; 2]>,
    cursor_x: Option<usize>,
    grid: &mut SharedGrid,
) -> Vec<TextRun> {
    let mut it = RunIterator::new(
        RunOptions {
            cells: RowCells { raw_cells: raw, styles, graphemes },
            selection,
            cursor_x,
        },
        RunIteratorHook::new(),
    );
    let mut out = Vec::new();
    while let Some(run) = next_run(&mut it, grid) {
        out.push(run);
    }
    out
}

fn collect_runs_with_buffers(
    raw: &[RawCell],
    styles: &[CellStyle],
    graphemes: &[GraphemeSlice],
    grid: &mut SharedGrid,
) -> (Vec<TextRun>, Vec<Codepoint>, Vec<u16>) {
    let mut it = RunIterator::new(
        RunOptions {
            cells: RowCells { raw_cells: raw, styles, graphemes },
            selection: None,
            cursor_x: None,
        },
        RunIteratorHook::new(),
    );
    let first = next_run(&mut it, grid).into_iter().collect();
    (first, it.hooks().codepoints().to_vec(), it.hooks().utf16().to_vec())
}

#[test]
fn font_switch_splits_run() {
    let mut grid =
        build_grid(&[('a' as u32, face(1)), ('b' as u32, face(2)), (' ' as u32, face(1))]);

    let raw = [raw_codepoint('a' as u32, 0), raw_codepoint('b' as u32, 0)];
    let styles = [style(0, 0, 0), style(0, 0, 0)];
    let graphemes = no_graphemes(2);
    let runs = collect_runs(&raw, &styles, &graphemes, None, None, &mut grid);
    assert_eq!(runs.len(), 2);
    assert_eq!(runs[0].font_index, face(1));
    assert_eq!(runs[1].font_index, face(2));
}

#[test]
fn relative_position_hash_stability() {
    let mut grid = build_grid(&[
        ('a' as u32, face(3)),
        ('b' as u32, face(3)),
        ('x' as u32, face(3)),
        (' ' as u32, face(3)),
    ]);

    let base_raw = [raw_codepoint('a' as u32, 0), raw_codepoint('b' as u32, 0)];
    let base_styles = [style(0, 0, 0), style(0, 0, 0)];
    let base_g = no_graphemes(2);
    let base_hash = collect_runs(&base_raw, &base_styles, &base_g, None, None, &mut grid)[0].hash;

    let shifted_raw = [
        raw_codepoint('x' as u32, 0),
        raw_codepoint('a' as u32, 0),
        raw_codepoint('b' as u32, 0),
    ];
    let shifted_styles = [style(0, 0, 0), style(0, 0, 0), style(0, 0, 0)];
    let shifted_g = no_graphemes(3);
    let runs = collect_runs(
        &shifted_raw,
        &shifted_styles,
        &shifted_g,
        Some([1, 2]),
        None,
        &mut grid,
    );
    assert_eq!(runs.len(), 2);
    assert_eq!(runs[1].offset, 1);
    assert_eq!(runs[1].hash, base_hash);
}

#[test]
fn run_boundary_parity_selection_cursor_style_and_ligature() {
    let mut grid = build_grid(&[
        ('a' as u32, face(1)),
        ('b' as u32, face(1)),
        ('c' as u32, face(1)),
        ('d' as u32, face(1)),
        ('f' as u32, face(1)),
        ('i' as u32, face(1)),
        (' ' as u32, face(1)),
    ]);

    // A change of foreground colour does not split.
    let raw = [raw_codepoint('a' as u32, 1), raw_codepoint('b' as u32, 2)];
    let styles = [style(2, 10, 0), style(2, 20, 0)];
    let g = no_graphemes(2);
    assert_eq!(collect_runs(&raw, &styles, &g, None, None, &mut grid).len(), 1);

    // A change of flags does.
    let raw = [raw_codepoint('a' as u32, 1), raw_codepoint('b' as u32, 2)];
    let styles = [style(2, 10, 0), style(2, 10, 1 << 6)];
    let g = no_graphemes(2);
    assert_eq!(collect_runs(&raw, &styles, &g, None, None, &mut grid).len(), 2);

    // Selection.
    let raw = [
        raw_codepoint('a' as u32, 0),
        raw_codepoint('b' as u32, 0),
        raw_codepoint('c' as u32, 0),
        raw_codepoint('d' as u32, 0),
    ];
    let styles = [style(0, 0, 0), style(0, 0, 0), style(0, 0, 0), style(0, 0, 0)];
    let g = no_graphemes(4);
    assert_eq!(collect_runs(&raw, &styles, &g, Some([1, 2]), None, &mut grid).len(), 3);

    // Cursor.
    let raw = [
        raw_codepoint('a' as u32, 0),
        raw_codepoint('b' as u32, 0),
        raw_codepoint('c' as u32, 0),
    ];
    let styles = [style(0, 0, 0), style(0, 0, 0), style(0, 0, 0)];
    let g = no_graphemes(3);
    assert_eq!(collect_runs(&raw, &styles, &g, None, Some(1), &mut grid).len(), 3);

    // A ligature that reads badly.
    let raw = [raw_codepoint('f' as u32, 0), raw_codepoint('i' as u32, 0)];
    let styles = [style(0, 0, 0), style(0, 0, 0)];
    let g = no_graphemes(2);
    assert_eq!(collect_runs(&raw, &styles, &g, None, None, &mut grid).len(), 2);

    // A spacer does not split.
    let raw = [raw_codepoint('a' as u32, 0), raw_spacer(0), raw_codepoint('b' as u32, 0)];
    let styles = [style(0, 0, 0), style(0, 0, 0), style(0, 0, 0)];
    let g = no_graphemes(3);
    assert_eq!(collect_runs(&raw, &styles, &g, None, None, &mut grid).len(), 1);
}

#[test]
fn run_iterator_omits_variation_selectors_from_shaping_buffers() {
    let mut grid = SharedGrid::with_collection(Collection::new(), GridMetrics::default());
    grid.configure_dwrite([11, 12, 13, 14], false, GridMetrics::default(), 8).unwrap();
    let raw = [raw_grapheme_codepoint(0x2764, 0)];
    let styles = [style(0, 0, 0)];
    let graphemes = [GraphemeSlice { codepoints: vec![0xFE0F] }];

    let (runs, codepoints, utf16_buf) =
        collect_runs_with_buffers(&raw, &styles, &graphemes, &mut grid);

    assert_eq!(runs.len(), 1);
    assert_eq!(codepoints.len(), 1);
    assert_eq!(codepoints[0].codepoint, 0x2764);
    assert_eq!(codepoints[0].cluster, 0);
    assert_eq!(utf16_buf, vec![0x2764]);
}

#[test]
fn run_iterator_adds_dummy_codepoint_for_surrogate_pairs() {
    let mut grid = build_grid(&[(0x1F34E, face(1)), (' ' as u32, face(1))]);
    let raw = [raw_codepoint(0x1F34E, 0)];
    let styles = [style(0, 0, 0)];
    let graphemes = no_graphemes(1);

    let (runs, codepoints, utf16_buf) =
        collect_runs_with_buffers(&raw, &styles, &graphemes, &mut grid);

    assert_eq!(runs.len(), 1);
    assert_eq!(utf16_buf.len(), 2);
    assert_eq!(codepoints.len(), 2);
    assert_eq!(codepoints[0].codepoint, 0x1F34E);
    assert_eq!(codepoints[0].cluster, 0);
    assert_eq!(codepoints[1].codepoint, 0);
    assert_eq!(codepoints[1].cluster, 0);
    assert_eq!(utf16_buf, vec![0xD83C, 0xDF4E]);
}

#[test]
fn invisible_cells_are_skipped_and_empty_ones_trimmed() {
    let mut grid = build_grid(&[('a' as u32, face(1)), (' ' as u32, face(1))]);
    // Invisible, visible, then nothing.
    let raw = [raw_codepoint('a' as u32, 1), raw_codepoint('a' as u32, 0)];
    let styles = [style(0, 0, 1 << 5), style(0, 0, 0)];
    let g = no_graphemes(2);
    let runs = collect_runs(&raw, &styles, &g, None, None, &mut grid);
    assert_eq!(runs.len(), 1);
    assert_eq!((runs[0].offset, runs[0].cells), (1, 1));
}

#[test]
fn a_row_without_fonts_has_no_runs() {
    let mut grid = SharedGrid::with_collection(Collection::new(), GridMetrics::default());
    let raw = [raw_codepoint('a' as u32, 0)];
    let styles = [style(0, 0, 0)];
    let g = no_graphemes(1);
    assert!(collect_runs(&raw, &styles, &g, None, None, &mut grid).is_empty());
}

#[test]
fn what_stands_before_a_stop_is_collected() {
    let mut grid = build_grid(&[('a' as u32, face(1))]);
    let raw = [raw_codepoint('a' as u32, 0), raw_spacer(0), raw_codepoint('b' as u32, 0)];
    let graphemes = no_graphemes(3);
    let mut it = RunIterator::new(
        RunOptions {
            cells: RowCells { raw_cells: &raw, styles: &[], graphemes: &graphemes },
            selection: None,
            cursor_x: None,
        },
        RunIteratorHook::new(),
    );
    let first = [Codepoint { codepoint: 'a' as u32, cluster: 0 }];

    // The last cell needs a font.
    assert!(it.next(&grid).is_err());
    assert_eq!(it.hooks().codepoints(), &first);
    assert_eq!(it.hooks().utf16(), &['a' as u16]);

    // The last cell has none.
    for cp in ['b' as u32, 0xfffd, ' ' as u32] {
        grid.prime_index(cp, Style::Normal, None, None);
    }
    assert!(matches!(it.next(&grid), Ok(None)));
    assert_eq!(it.hooks().codepoints(), &first);
    assert_eq!(it.hooks().utf16(), &['a' as u16]);
}

#[test]
fn same_content_same_hash() {
    let hash_a = {
        let mut h = RunHasher::new();
        h.add_codepoint(b'h' as u32, 0);
        h.add_codepoint(b'i' as u32, 1);
        h.finish(2, 0)
    };
    let hash_b = {
        let mut h = RunHasher::new();
        h.add_codepoint(b'h' as u32, 0);
        h.add_codepoint(b'i' as u32, 1);
        h.finish(2, 0)
    };
    assert_eq!(hash_a, hash_b);
}

#[test]
fn different_font_different_hash() {
    let hash_a = {
        let mut h = RunHasher::new();
        h.add_codepoint(b'h' as u32, 0);
        h.finish(1, 0)
    };
    let hash_b = {
        let mut h = RunHasher::new();
        h.add_codepoint(b'h' as u32, 0);
        h.finish(1, 1)
    };
    assert_ne!(hash_a, hash_b);
}

#[test]
fn different_length_different_hash() {
    let hash_a = {
        let mut h = RunHasher::new();
        h.add_codepoint(b'a' as u32, 0);
        h.finish(1, 0)
    };
    let hash_b = {
        let mut h = RunHasher::new();
        h.add_codepoint(b'a' as u32, 0);
        h.finish(2, 0)
    };
    assert_ne!(hash_a, hash_b);
}

#[test]
fn position_independent() {
    let hash = |base: u32| {
        let mut h = RunHasher::new();
        h.add_codepoint(b'x' as u32, 0);
        h.add_codepoint(b'y' as u32, 1);
        let _ = base;
        h.finish(2, 42)
    };
    assert_eq!(hash(0), hash(10));
    assert_eq!(hash(0), hash(100));
}

#[test]
fn runs_cover_exactly_what_is_shown() {
    let mut grid = build_grid(&[
        ('a' as u32, face(1)),
        ('b' as u32, face(2)),
        ('f' as u32, face(1)),
        ('i' as u32, face(1)),
        (' ' as u32, face(1)),
    ]);
    let text = "aabfiabaa";
    let hidden = [false, true, false, false, false, true, true, false, true];
    let raw: Vec<RawCell> = text
        .chars()
        .zip(hidden)
        .map(|(ch, hidden)| raw_codepoint(ch as u32, if hidden { 7 } else { 0 }))
        .collect();
    let styles: Vec<CellStyle> =
        hidden.iter().map(|hidden| style(0, 0, if *hidden { 32 } else { 0 })).collect();
    let graphemes = no_graphemes(raw.len());
    let runs = collect_runs(&raw, &styles, &graphemes, Some([3, 4]), Some(2), &mut grid);
    let mut end = 0;
    for run in &runs {
        assert!(run.cells >= 1 && run.offset >= end);
        end = run.offset + run.cells;
    }
    for (c, hidden) in hidden.iter().enumerate() {
        let inside = runs
            .iter()
            .any(|run| run.offset as usize <= c && c < (run.offset + run.cells) as usize);
        assert_eq!(inside, !*hidden, "column {c}");
    }
}
