use rustty::emoji::codepoint_default_emoji_presentation;
use rustty::font::atlas::{Format, INITIAL_SIZE};
use rustty::font::cache::glyph_cache::{GlyphAtlasKind, GlyphKey, GlyphRenderOptions};
use rustty::font::collection::{glyph_is_color, Collection, CollectionFullError, FontNeed};
use rustty::font::resolver::CodepointResolver;
use rustty::font::shared_grid::{GridMetrics, RasterizedGlyph, RenderError, SharedGrid};
use rustty::font::shared_grid_set::{
    DWriteGridConfig, DWriteGridKey, GridKeys, SharedGridSet,
};
use rustty::font::types::{FontIndex, Presentation, Style};
use rustty::ghostty::types::RawCell;

fn plain_grid() -> SharedGrid {
    SharedGrid::with_collection(Collection::new(), GridMetrics::default())
}

fn configured_grid() -> SharedGrid {
    let mut grid = plain_grid();
    grid.configure_dwrite([11, 12, 13, 14], false, GridMetrics::default(), 8).unwrap();
    grid
}

fn answer(grid: &mut SharedGrid, need: FontNeed) {
    match need {
        FontNeed::Index { codepoint, style, presentation } => {
            if let Err(inner) = grid.get_index(codepoint, style, presentation) {
                answer(grid, inner);
            }
        }
        FontNeed::Glyph { index, codepoint } => grid.tell_glyph(index, codepoint, 5),
        FontNeed::Color { index, glyph } => grid.tell_color(index, glyph, false),
        FontNeed::Fallback { codepoint } => grid.tell_fallback(codepoint, None),
    }
}

fn index_of(grid: &mut SharedGrid, cp: char) -> Option<FontIndex> {
    loop {
        match grid.get_index(cp as u32, Style::Normal, None) {
            Ok(index) => return index,
            Err(need) => answer(grid, need),
        }
    }
}

#[test]
fn overlap_split_trigger_ignores_regular_aa_overhang() {
    assert!(!SharedGrid::glyph_needs_overlap_split(-2, 10, 1, 10));
}

#[test]
fn overlap_split_trigger_matches_wt_ligature_threshold() {
    assert!(SharedGrid::glyph_needs_overlap_split(0, 18, 1, 10));
    assert!(!SharedGrid::glyph_needs_overlap_split(0, 20, 2, 10));
}

#[test]
fn get_index_negative_cache_hits_once() {
    let mut grid = plain_grid();
    grid.prime_index('A' as u32, Style::Normal, None, None);
    assert_eq!(grid.get_index('A' as u32, Style::Normal, None), Ok(None));
    assert_eq!(grid.get_index('A' as u32, Style::Normal, None), Ok(None));
}

#[test]
fn has_codepoint_is_cached() {
    let mut grid = configured_grid();
    let idx = index_of(&mut grid, 'A').expect("index for A");
    assert_eq!(grid.has_codepoint(idx, 'A' as u32, None), Ok(true));
    assert_eq!(grid.has_codepoint(idx, 'A' as u32, None), Ok(true));
}

#[test]
fn index_for_cell_prefers_font_covering_full_grapheme() {
    let mut grid = configured_grid();
    let cell = RawCell::from_word(1u64 | (('a' as u64) << 2));
    let idx = loop {
        match grid.index_for_cell(cell, &['x' as u32], Style::Normal, None) {
            Ok(idx) => break idx,
            Err(need) => answer(&mut grid, need),
        }
    };
    assert!(idx.is_some());
}

#[test]
fn dual_atlases_match_expected_formats() {
    let grid = plain_grid();
    assert_eq!(
        grid.with_atlas_snapshot(GlyphAtlasKind::Grayscale, |atlas| atlas.format),
        Format::Grayscale
    );
    assert_eq!(
        grid.with_atlas_snapshot(GlyphAtlasKind::Color, |atlas| atlas.format),
        Format::Bgra
    );
    assert_eq!(
        grid.with_atlas_snapshot(GlyphAtlasKind::Grayscale, |atlas| atlas.size),
        INITIAL_SIZE
    );
    assert_eq!(
        grid.with_atlas_snapshot(GlyphAtlasKind::Color, |atlas| atlas.size),
        INITIAL_SIZE
    );
}

#[test]
fn presentation_routes_to_expected_atlas() {
    let grid = plain_grid();
    assert_eq!(
        grid.with_atlas_snapshot(Presentation::Text.atlas_kind(), |atlas| atlas.format),
        Format::Grayscale
    );
    assert_eq!(
        grid.with_atlas_snapshot(Presentation::Emoji.atlas_kind(), |atlas| atlas.format),
        Format::Bgra
    );
}

#[test]
fn try_grow_respects_max() {
    let mut grid = SharedGrid::with_atlas_max_size(
        CodepointResolver::new(Collection::new()),
        GridMetrics::default(),
        512,
    );
    assert!(!grid.try_grow_atlas(GlyphAtlasKind::Grayscale));
}

#[test]
fn try_grow_succeeds_within_limit() {
    let mut grid = SharedGrid::with_atlas_max_size(
        CodepointResolver::new(Collection::new()),
        GridMetrics::default(),
        2048,
    );
    assert!(grid.try_grow_atlas(GlyphAtlasKind::Grayscale));
    assert_eq!(grid.atlas_for_kind_mut(GlyphAtlasKind::Grayscale).size(), 1024);
}

#[test]
fn reset_all_clears_both() {
    let mut grid = plain_grid();
    grid.atlas_for_kind_mut(GlyphAtlasKind::Grayscale).reserve(4, 4).unwrap();
    grid.atlas_for_kind_mut(GlyphAtlasKind::Color).reserve(4, 4).unwrap();

    grid.reset_all_atlases();

    grid.atlas_for_kind_mut(GlyphAtlasKind::Grayscale)
        .reserve(INITIAL_SIZE - 2, INITIAL_SIZE - 2)
        .unwrap();
    grid.atlas_for_kind_mut(GlyphAtlasKind::Color)
        .reserve(INITIAL_SIZE - 2, INITIAL_SIZE - 2)
        .unwrap();
}

#[test]
fn same_key_reuses_grid_and_refcounts() {
    let mut set = SharedGridSet::new();
    let g1 = format!("{:p}", set.ref_or_insert_with(1, plain_grid));
    let g2 = format!("{:p}", set.ref_or_insert_with(1, plain_grid));
    assert_eq!(g1, g2);
    assert_eq!(set.count(), 1);
    set.deref(&1);
    assert_eq!(set.count(), 1);
    set.deref(&1);
    assert_eq!(set.count(), 0);
}

#[test]
fn a_grid_that_cannot_be_made_is_not_kept() {
    let mut set = SharedGridSet::new();
    assert_eq!(set.try_ref_or_insert_with(4, || Err::<SharedGrid, u8>(9)).err(), Some(9));
    assert_eq!(set.count(), 0);
    assert!(set.get(4).is_none());
    set.deref(&4);
    assert_eq!(set.count(), 0);
}

fn glyph(width: u32, height: u32, value: u8) -> RasterizedGlyph {
    RasterizedGlyph {
        width,
        height,
        offset_x: 1,
        offset_y: -3,
        pixels: vec![value; (width * height) as usize],
        atlas_kind: GlyphAtlasKind::Grayscale,
    }
}

#[test]
fn a_rendered_glyph_is_remembered() {
    let mut grid = configured_grid();
    let face = FontIndex::new(Style::Normal, 0);
    let key = GlyphKey::new(face, 65, GlyphRenderOptions::default().with_cell_width(1));
    assert_eq!(grid.render_glyph(key, None), Err(RenderError::NeedsRaster { face: 11 }));
    let drawn = grid.render_glyph(key, Some(&glyph(4, 3, 7))).unwrap();
    assert_eq!((drawn.width, drawn.height), (4, 3));
    assert_eq!((drawn.offset_x, drawn.offset_y), (1, -3));
    assert_eq!(grid.render_glyph(key, None), Ok(drawn));
    let at = (drawn.atlas_y * INITIAL_SIZE + drawn.atlas_x) as usize;
    let (inside, outside) = grid.with_atlas_snapshot(GlyphAtlasKind::Grayscale, |atlas| {
        (atlas.data[at], atlas.data[at - 1])
    });
    assert_eq!((inside, outside), (7, 0));
}

#[test]
fn rendering_without_fonts_fails() {
    let mut grid = plain_grid();
    let key = GlyphKey::new(FontIndex::new(Style::Normal, 0), 65, GlyphRenderOptions::default());
    assert_eq!(grid.render_glyph(key, None), Err(RenderError::MissingRuntime));
}

#[test]
fn a_glyph_beyond_the_largest_atlas_is_refused() {
    let mut grid = SharedGrid::with_atlas_max_size(
        CodepointResolver::new(Collection::new()),
        GridMetrics::default(),
        512,
    );
    grid.configure_dwrite([1, 2, 3, 4], false, GridMetrics::default(), 8).unwrap();
    let key = GlyphKey::new(FontIndex::new(Style::Normal, 0), 65, GlyphRenderOptions::default());
    let raster = glyph(600, 1, 1);
    assert_eq!(grid.render_glyph(key, Some(&raster)), Err(RenderError::AtlasExhausted));
}

#[test]
fn faces_keep_their_place() {
    let mut faces = Collection::new();
    let a = faces.get_or_insert_dwrite_face(Style::Bold, 70).unwrap();
    let b = faces.get_or_insert_dwrite_face(Style::Bold, 71).unwrap();
    assert_eq!(faces.get_or_insert_dwrite_face(Style::Bold, 70), Ok(a));
    assert_ne!(a, b);
    assert_eq!(faces.face_for_index(a), Some(70));
    assert_eq!(faces.face_for_index(b), Some(71));
    assert_eq!(a.style(), Style::Bold);
    assert_eq!((a.index(), b.index()), (0, 1));
}

#[test]
fn a_full_style_takes_no_more_faces() {
    let mut faces = Collection::new();
    let mut refused = None;
    for handle in 0..8300u64 {
        if let Err(error) = faces.get_or_insert_dwrite_face(Style::Normal, handle) {
            refused = Some(error);
            break;
        }
    }
    assert_eq!(refused, Some(CollectionFullError));
}

#[test]
fn told_glyphs_answer_questions() {
    let mut faces = Collection::new();
    let index = faces.get_or_insert_dwrite_face(Style::Normal, 5).unwrap();
    assert_eq!(
        faces.has_codepoint(index, 66, None),
        Err(FontNeed::Glyph { index, codepoint: 66 })
    );
    faces.tell_glyph(index, 66, 0);
    assert_eq!(faces.has_codepoint(index, 66, None), Ok(false));
    faces.tell_glyph(index, 67, 9);
    assert_eq!(faces.has_codepoint(index, 67, None), Ok(true));
    assert_eq!(
        faces.has_codepoint(index, 67, Some(Presentation::Emoji)),
        Err(FontNeed::Color { index, glyph: 9 })
    );
    faces.tell_color(index, 9, true);
    assert_eq!(faces.has_codepoint(index, 67, Some(Presentation::Emoji)), Ok(true));
    assert_eq!(faces.has_codepoint(index, 67, Some(Presentation::Text)), Ok(false));
}

#[test]
fn colored_formats_make_colored_glyphs() {
    assert!(glyph_is_color(0x10, None, false));
    assert!(!glyph_is_color(0x01, None, false));
}

#[test]
fn emoji_presentation_comes_from_the_tables() {
    assert!(codepoint_default_emoji_presentation(0x1F34E));
    assert!(!codepoint_default_emoji_presentation(0x2764));
    assert!(!codepoint_default_emoji_presentation('a' as u32));
    assert!(!codepoint_default_emoji_presentation(0xD800));
}

#[test]
fn equal_configurations_share_a_number() {
    let mut keys = GridKeys::new();
    let a = DWriteGridConfig::with_single_family("Cascadia".to_string(), "en-US".to_string());
    let b = DWriteGridConfig::with_single_family("Cascadia".to_string(), "en-US".to_string());
    let c = DWriteGridConfig::with_single_family("Consolas".to_string(), "en-US".to_string());
    let first = keys.number_of(DWriteGridKey::from_config(&a));
    assert_eq!(keys.number_of(DWriteGridKey::from_config(&b)), first);
    assert_ne!(keys.number_of(DWriteGridKey::from_config(&c)), first);
}
