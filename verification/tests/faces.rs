use rustty::font::backend::face::{
    bitmap_formats, bitmap_glyph, color_glyph, glyph_image_formats_any, grayscale_glyph, have_room,
    rasterize, rasterize_bitmap_color, rasterize_color, texture_size, Bounds, ColorCompose,
    ColorGlyph, ColorLayer, FoundLayer, LayerColor, COLOR_FORMATS, FORMAT_CFF, FORMAT_COLR,
    FORMAT_JPEG, FORMAT_PNG, FORMAT_PREMULTIPLIED_B8G8R8A8, FORMAT_SVG, FORMAT_TIFF,
    FORMAT_TRUETYPE, OUTLINE_FORMATS,
};
use rustty::font::backend::fallback::{fallback_face, fallback_text, EmptyMapping, MappedFontRun};
use rustty::font::backend::variation::{
    face_traits, has_stand_in, resolve_primary_faces, resolve_primary_faces_in_collection,
    resolve_style_face, FaceError, StyleError, StyleVariationRequest, WEIGHT_BOLD, WEIGHT_NORMAL,
};
use rustty::font::cache::glyph_cache::GlyphAtlasKind;
use rustty::font::settings::FontAxisSpec;
use rustty::font::shared_grid::RasterizedGlyph;
use rustty::font::shared_grid_set::{DWriteGridConfig, GridError, GridKeys, SharedGridSet};
use rustty::font::types::Style;
use std::cell::RefCell;

#[test]
fn outline_formats_are_among_the_color_formats() {
    assert!(glyph_image_formats_any(FORMAT_COLR | FORMAT_PNG, FORMAT_PNG));
    assert!(!glyph_image_formats_any(FORMAT_SVG, OUTLINE_FORMATS));
    assert_eq!(OUTLINE_FORMATS, FORMAT_TRUETYPE | FORMAT_CFF | FORMAT_COLR);
    assert_eq!(
        COLOR_FORMATS,
        OUTLINE_FORMATS
            | FORMAT_SVG
            | FORMAT_PNG
            | FORMAT_JPEG
            | FORMAT_TIFF
            | FORMAT_PREMULTIPLIED_B8G8R8A8
    );
}

#[test]
fn image_formats_are_tried_in_order() {
    assert_eq!(
        bitmap_formats(255),
        vec![FORMAT_PREMULTIPLIED_B8G8R8A8, FORMAT_PNG, FORMAT_JPEG, FORMAT_TIFF]
    );
    assert_eq!(bitmap_formats(FORMAT_TIFF | FORMAT_PNG), vec![FORMAT_PNG, FORMAT_TIFF]);
    assert!(bitmap_formats(OUTLINE_FORMATS).is_empty());
}

#[test]
fn textures_have_a_size_unless_they_are_empty() {
    let bounds = Bounds { left: -2, top: 3, right: 4, bottom: 8 };
    assert_eq!(texture_size(bounds), Some((6, 5)));
    assert_eq!(texture_size(Bounds { right: -2, ..bounds }), None);
    assert_eq!(texture_size(Bounds { bottom: 1, ..bounds }), None);

    let glyph = grayscale_glyph(bounds, vec![7; 30]);
    assert_eq!((glyph.width, glyph.height, glyph.offset_x, glyph.offset_y), (6, 5, -2, 3));
    assert_eq!(glyph.pixels, vec![7; 30]);
    assert_eq!(glyph.atlas_kind, GlyphAtlasKind::Grayscale);
    let empty = grayscale_glyph(Bounds { right: -5, ..bounds }, vec![7; 30]);
    assert_eq!((empty.width, empty.height, empty.offset_x, empty.offset_y), (0, 0, 0, 0));
    assert!(empty.pixels.is_empty());
}

#[test]
fn images_need_all_their_pixels() {
    let data: Vec<u8> = (0..40).collect();
    let glyph = bitmap_glyph(&data, 3, 3, 2, -4).expect("glyph");
    assert_eq!((glyph.width, glyph.height, glyph.offset_x, glyph.offset_y), (3, 3, -2, 4));
    assert_eq!(glyph.pixels, (0..36).collect::<Vec<u8>>());
    assert_eq!(glyph.atlas_kind, GlyphAtlasKind::Color);
    assert!(bitmap_glyph(&data, 4, 3, 0, 0).is_none());
    assert!(bitmap_glyph(&data, 0, 3, 0, 0).is_none());
    assert!(bitmap_glyph(&data, 3, 0, 0, 0).is_none());
}

fn layer(left: i32, top: i32, width: u32, height: u32, coverage: &[u8]) -> ColorLayer {
    ColorLayer { left, top, width, height, coverage: coverage.to_vec() }
}

fn color(r: u8, g: u8, b: u8, a: u8) -> LayerColor {
    LayerColor { r, g, b, a }
}

fn outline(layer: ColorLayer, color: LayerColor) -> FoundLayer {
    FoundLayer { format: FORMAT_COLR, color, outline: Some(layer) }
}

#[test]
fn opaque_layers_hide_what_is_under_them() {
    let glyph = color_glyph(&vec![
        outline(layer(0, 0, 1, 1, &[255]), color(9, 8, 7, 255)),
        outline(layer(0, 0, 1, 1, &[255]), color(200, 100, 50, 255)),
    ])
    .expect("glyph");
    assert_eq!(glyph.pixels, vec![50, 100, 200, 255]);
}

#[test]
fn uncovered_and_transparent_pixels_stay() {
    let glyph = color_glyph(&vec![
        outline(layer(0, 0, 2, 1, &[255, 255]), color(10, 20, 30, 255)),
        outline(layer(0, 0, 2, 1, &[0, 255]), color(200, 100, 50, 0)),
    ])
    .expect("glyph");
    assert_eq!(glyph.pixels, vec![30, 20, 10, 255, 30, 20, 10, 255]);
}

#[test]
fn half_covered_pixels_mix() {
    let glyph = color_glyph(&vec![
        outline(layer(0, 0, 1, 1, &[255]), color(0, 0, 0, 255)),
        outline(layer(0, 0, 1, 1, &[128]), color(255, 0, 100, 255)),
    ])
    .expect("glyph");
    // 128 of 255 of the upper color; the alpha of both adds up to 255.
    assert_eq!(glyph.pixels, vec![50, 0, 128, 255]);
}

#[test]
fn layers_widen_the_image() {
    let glyph = color_glyph(&vec![
        outline(layer(0, 0, 1, 1, &[255]), color(1, 2, 3, 255)),
        outline(layer(-1, 1, 1, 1, &[255]), color(4, 5, 6, 255)),
    ])
    .expect("glyph");
    assert_eq!((glyph.width, glyph.height, glyph.offset_x, glyph.offset_y), (2, 2, -1, 0));
    assert_eq!(
        glyph.pixels,
        vec![0, 0, 0, 0, 3, 2, 1, 255, 6, 5, 4, 255, 0, 0, 0, 0]
    );
    let mut composed = ColorCompose::default();
    composed.blend(&layer(0, 0, 0, 0, &[]), color(1, 1, 1, 1));
    assert_eq!((composed.width(), composed.height()), (0, 0));
    composed.blend(&layer(3, 3, 2, 1, &[1, 2]), color(1, 1, 1, 1));
    composed.ensure_bounds(3, 3, 4, 6);
    assert_eq!((composed.width(), composed.height()), (2, 3));
}

#[test]
fn only_outlines_are_drawn() {
    let svg = |outline| FoundLayer { format: FORMAT_SVG, color: color(1, 1, 1, 255), outline };
    assert!(color_glyph(&vec![]).is_none());
    assert!(color_glyph(&vec![svg(None)]).is_none());
    assert!(color_glyph(&vec![svg(Some(layer(0, 0, 1, 1, &[255])))]).is_none());
    let mut glyph = ColorGlyph::new();
    assert!(!glyph.layer_found(FORMAT_SVG));
    assert!(glyph.layer_found(FORMAT_CFF));
    assert!(glyph.finish().is_none());
}

#[test]
fn layers_have_to_be_whole() {
    let white = color(255, 255, 255, 255);
    assert!(have_room(&vec![outline(layer(0, 0, 2, 2, &[0; 4]), white)]));
    assert!(!have_room(&vec![outline(layer(0, 0, 2, 2, &[0; 3]), white)]));
    assert!(!have_room(&vec![outline(layer(i32::MAX, 0, 1, 1, &[0]), white)]));
    // Two pixels as far apart as can be leave no room for what is between them.
    assert!(!have_room(&vec![
        outline(layer(i32::MIN, 0, 1, 1, &[0]), white),
        outline(layer(i32::MAX - 1, 0, 1, 1, &[0]), white),
    ]));
}

fn gray(width: u32) -> RasterizedGlyph {
    RasterizedGlyph {
        width,
        height: 1,
        offset_x: 0,
        offset_y: 0,
        pixels: vec![0; width as usize],
        atlas_kind: GlyphAtlasKind::Grayscale,
    }
}

#[test]
fn images_come_before_layers_and_layers_before_gray() {
    let tried: RefCell<Vec<i32>> = RefCell::new(Vec::new());
    let jpeg = |format: i32| {
        tried.borrow_mut().push(format);
        if format == FORMAT_JPEG {
            Ok::<Option<RasterizedGlyph>, u32>(Some(gray(3)))
        } else {
            Ok(None)
        }
    };
    let image = rasterize_bitmap_color(255, &jpeg).expect("no error").expect("image");
    assert_eq!(image.width, 3);
    assert_eq!(*tried.borrow(), vec![FORMAT_PREMULTIPLIED_B8G8R8A8, FORMAT_PNG, FORMAT_JPEG]);
    assert!(matches!(rasterize_bitmap_color(FORMAT_PNG, &jpeg), Ok(None)));
    let broken = |_: i32| Err::<Option<RasterizedGlyph>, u32>(4);
    assert!(matches!(rasterize_bitmap_color(FORMAT_PNG, &broken), Err(4)));

    let some_image = || Ok::<Option<RasterizedGlyph>, u32>(Some(gray(5)));
    let no_image = || Ok::<Option<RasterizedGlyph>, u32>(None);
    let bad_image = || Err::<Option<RasterizedGlyph>, u32>(8);
    let layers = || {
        Ok::<Option<Vec<FoundLayer>>, u32>(Some(vec![outline(
            layer(0, 0, 1, 1, &[255]),
            color(1, 2, 3, 255),
        )]))
    };
    let no_layers = || Ok::<Option<Vec<FoundLayer>>, u32>(None);
    let bad_layers = || Err::<Option<Vec<FoundLayer>>, u32>(9);
    let found = rasterize_color(&some_image, &bad_layers).expect("no error").expect("glyph");
    assert_eq!(found.width, 5);
    let found = rasterize_color(&no_image, &layers).expect("no error").expect("glyph");
    assert_eq!(found.pixels, vec![3, 2, 1, 255]);
    assert!(matches!(rasterize_color(&no_image, &no_layers), Ok(None)));
    assert!(matches!(rasterize_color(&no_image, &bad_layers), Err(9)));
    assert!(matches!(rasterize_color(&bad_image, &layers), Err(8)));

    let in_gray = || Ok::<RasterizedGlyph, u32>(gray(7));
    let bad_gray = || Err::<RasterizedGlyph, u32>(2);
    assert_eq!(rasterize(&some_image, &bad_gray).expect("glyph").width, 5);
    assert_eq!(rasterize(&no_image, &in_gray).expect("glyph").width, 7);
    assert!(matches!(rasterize(&no_image, &bad_gray), Err(2)));
    assert!(matches!(rasterize(&bad_image, &in_gray), Err(8)));
}

#[test]
fn fallback_asks_about_characters_only() {
    assert_eq!(fallback_text(0x41), Some(vec![0x41]));
    assert_eq!(fallback_text(0x1f600), Some(vec![0xd83d, 0xde00]));
    assert_eq!(fallback_text(0xd800), None);
    assert_eq!(fallback_text(0x11_0000), None);
    let run = MappedFontRun::of_answer(2, Some(11));
    assert_eq!(run, Ok(MappedFontRun { text_length: 2, font_face: Some(11) }));
    assert_eq!(fallback_face(run), Some(11));
    assert_eq!(MappedFontRun::of_answer(0, Some(11)), Err(EmptyMapping));
    assert_eq!(fallback_face(Err(EmptyMapping)), None);
    assert_eq!(fallback_face(MappedFontRun::of_answer(2, None)), None);
}

#[test]
fn styles_ask_for_weight_and_slant() {
    let bold_italic = face_traits(Style::BoldItalic);
    assert_eq!((bold_italic.weight, bold_italic.italic), (WEIGHT_BOLD, true));
    let normal = face_traits(Style::Normal);
    assert_eq!((normal.weight, normal.italic), (WEIGHT_NORMAL, false));
    assert_eq!(face_traits(Style::Bold).weight, WEIGHT_BOLD);
    assert!(face_traits(Style::Italic).italic);
}

fn requests<'a>(families: [&'a str; 4]) -> [StyleVariationRequest<'a>; 4] {
    families.map(|family| StyleVariationRequest { family, axes: FontAxisSpec::default() })
}

#[test]
fn missing_families_have_a_stand_in() {
    let lookup = |_: bool, style: Style, family: &str| match family {
        "Iosevka" => Some(1),
        "Consolas" if style == Style::Normal => Some(2),
        _ => None,
    };
    assert!(has_stand_in("Iosevka"));
    assert!(!has_stand_in("cONSOLAS"));
    let normal = Style::Normal;
    assert_eq!(resolve_style_face(&lookup, false, normal, "Iosevka"), Ok(1));
    assert_eq!(resolve_style_face(&lookup, false, normal, "Other"), Ok(2));
    assert_eq!(
        resolve_style_face(&lookup, false, Style::Bold, "Other"),
        Err(FaceError::NoFace)
    );
    assert_eq!(
        resolve_style_face(&lookup, false, Style::Bold, "consolas"),
        Err(FaceError::NoFace)
    );
    assert_eq!(
        resolve_style_face(&lookup, false, normal, " \t "),
        Err(FaceError::EmptyFamily)
    );
    let found = resolve_primary_faces_in_collection(
        &lookup,
        false,
        &requests(["Other", "Iosevka", "Other", ""]),
    );
    // The first style without a face counts.
    assert_eq!(found, Err(StyleError { style: Style::Italic, error: FaceError::NoFace }));
}

#[test]
fn fonts_are_looked_up_once_more_if_one_is_missing() {
    let asked: RefCell<Vec<bool>> = RefCell::new(Vec::new());
    let lookup = |refreshed: bool, style: Style, _: &str| {
        asked.borrow_mut().push(refreshed);
        if refreshed || style == Style::Normal {
            Some(style.to_rank() as u64)
        } else {
            None
        }
    };
    let families = requests(["A", "A", "A", "A"]);
    assert_eq!(resolve_primary_faces(&lookup, &families), Ok([0, 1, 2, 3]));
    // One face, then a style without one and without a stand-in, then all four.
    assert_eq!(
        *asked.borrow(),
        vec![false, false, false, true, true, true, true]
    );
}

#[test]
fn grids_are_shared_by_configuration() {
    let config = DWriteGridConfig::with_single_family("A".to_string(), "en-US".to_string());
    let other = DWriteGridConfig::with_single_family("B".to_string(), "en-US".to_string());
    let missing = DWriteGridConfig::with_single_family("C".to_string(), "en-US".to_string());
    let lookup = |_: bool, style: Style, family: &str| match family {
        "A" => Some(10 + style.to_rank() as u64),
        "B" => Some(20),
        _ => None,
    };
    let mut keys = GridKeys::new();
    let mut set = SharedGridSet::new();
    let first = set.ref_dwrite(&mut keys, &config, &lookup).expect("grid");
    let second = set.ref_dwrite(&mut keys, &other, &lookup).expect("grid");
    let again = set.ref_dwrite(&mut keys, &config, &lookup).expect("grid");
    assert_eq!(first, again);
    assert_ne!(first, second);
    assert_eq!(set.count(), 2);
    assert_eq!(
        set.ref_dwrite(&mut keys, &missing, &lookup),
        Err(GridError::Style(StyleError { style: Style::Normal, error: FaceError::NoFace }))
    );
    assert_eq!(set.count(), 2);
    set.deref(&first);
    assert_eq!(set.count(), 2);
    set.deref(&first);
    assert_eq!(set.count(), 1);
    let grid = set.get(second).expect("grid");
    let face = rustty::font::types::FontIndex::new(Style::Bold, 0);
    assert_eq!(grid.face_for_index(face), Some(20));
}
