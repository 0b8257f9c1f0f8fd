//! The font runtime that views with the same fonts share: which font shows a
//! code point, and where a glyph is in the atlases.
use crate::font::atlas::{Atlas, AtlasModel, Format, Region, INITIAL_SIZE};
use crate::font::cache::glyph_cache::{CachedGlyph, GlyphAtlasKind, GlyphCache, GlyphKey};
use crate::font::collection::{
    Collection, CollectionFullError, CollectionModel, FontNeed,
};
use crate::font::resolver::{CodepointResolver, ResolverModel};
use crate::font::types::{FontIndex, Presentation, Style};
use crate::ghostty::types::RawCell;
use crate::rapid::{map_get, map_insert, map_with_capacity};
use rapidhash::RapidHashMap;
use vstd::prelude::*;

verus! {

/// Pixels kept free to the right of and below a glyph.
pub const GLYPH_PADDING: u32 = 1;

/// A code point that stands for a picture and is shown as a space.
pub const KITTY_PLACEHOLDER: u32 = 0x10eeee;

/// Cell size and baseline, as the bit patterns of single-precision numbers.
/// Metrics are the same if the patterns are.
#[derive(Clone, Copy, Debug, PartialEq, Eq, Hash, Structural)]
pub struct GridMetrics {
    pub cell_width_bits: u32,
    pub cell_height_bits: u32,
    pub baseline_bits: u32,
}

impl Default for GridMetrics {
    fn default() -> (metrics: GridMetrics)
        ensures
            metrics == (GridMetrics {
                cell_width_bits: 0,
                cell_height_bits: 0,
                baseline_bits: 0,
            }),
    {
        GridMetrics { cell_width_bits: 0, cell_height_bits: 0, baseline_bits: 0 }
    }
}

/// A view of an atlas at one moment.
pub struct AtlasSnapshot<'a> {
    pub format: Format,
    pub size: u32,
    pub modified: u64,
    pub resized: u64,
    pub data: &'a [u8],
}

impl<'a> AtlasSnapshot<'a> {
    /// The snapshot shows the atlas as it is.
    pub open spec fn shows(self, atlas: AtlasModel) -> bool {
        &&& self.format == atlas.format
        &&& self.size == atlas.side
        &&& self.modified == atlas.modified
        &&& self.resized == atlas.resized
        &&& self.data@ == atlas.pixels
    }
}

/// The pixels of a glyph, ready to go into an atlas.
#[derive(Debug)]
pub struct RasterizedGlyph {
    pub width: u32,
    pub height: u32,
    pub offset_x: i32,
    pub offset_y: i32,
    /// Packed rows in the format of the atlas.
    pub pixels: Vec<u8>,
    pub atlas_kind: GlyphAtlasKind,
}

/// The pixel format of an atlas kind.
pub open spec fn format_of(kind: GlyphAtlasKind) -> Format {
    match kind {
        GlyphAtlasKind::Grayscale => Format::Grayscale,
        GlyphAtlasKind::Color => Format::Bgra,
    }
}

impl RasterizedGlyph {
    /// There are pixels for the whole size, and the padded size can be counted.
    pub open spec fn wf(&self) -> bool {
        &&& self.width < u32::MAX
        &&& self.height < u32::MAX
        &&& self.height * (self.width * format_of(self.atlas_kind).bytes()) <= self.pixels@.len()
    }
}

/// Why a glyph was not rendered.
#[derive(Clone, Copy, Debug, PartialEq, Eq, Structural)]
pub enum RenderError {
    /// The grid was not configured with fonts.
    MissingRuntime,
    /// The glyph has to be rasterized from this face first.
    NeedsRaster { face: u64 },
    /// The glyph does not fit, even into an empty atlas of the largest size.
    AtlasExhausted,
}

/// What a grid holds.
#[verifier::ext_equal]
pub struct GridModel {
    pub max_atlas_size: u32,
    /// Cell width in pixels, once the grid was configured with fonts.
    pub raster_cell_width: Option<u32>,
    pub grayscale: AtlasModel,
    pub color: AtlasModel,
    /// The font of each code point that was looked up, if there is one.
    pub codepoints: Map<u64, Option<FontIndex>>,
    pub glyphs: Map<u64, CachedGlyph>,
    pub resolver: ResolverModel,
    pub metrics: GridMetrics,
}

/// The number of a presentation that may be left open.
pub open spec fn presentation_rank(presentation: Option<Presentation>) -> int {
    match presentation {
        None => 0,
        Some(Presentation::Text) => 1,
        Some(Presentation::Emoji) => 2,
    }
}

/// The word by which the font of a code point is remembered: the code point in
/// the lower half, above it the variant and the presentation.
pub open spec fn codepoint_key(
    codepoint: u32,
    style: Style,
    presentation: Option<Presentation>,
) -> u64 {
    (codepoint + style.rank() * 0x1_0000_0000 + presentation_rank(presentation)
        * 0x4_0000_0000) as u64
}

/// Different lookups are remembered under different words.
pub proof fn law_codepoint_keys_are_distinct(
    a: u32,
    a_style: Style,
    a_presentation: Option<Presentation>,
    b: u32,
    b_style: Style,
    b_presentation: Option<Presentation>,
)
    requires
        codepoint_key(a, a_style, a_presentation) == codepoint_key(b, b_style, b_presentation),
    ensures
        a == b,
        a_style == b_style,
        a_presentation == b_presentation,
{
}

fn pack_codepoint_key(codepoint: u32, style: Style, presentation: Option<Presentation>) -> (key: u64)
    ensures
        key == codepoint_key(codepoint, style, presentation),
{
    let rank: u64 = style.to_rank() as u64;
    let code: u64 = match presentation {
        None => 0,
        Some(Presentation::Text) => 1,
        Some(Presentation::Emoji) => 2,
    };
    codepoint as u64 + rank * 0x1_0000_0000 + code * 0x4_0000_0000
}

/// A code point of a grapheme that asks for no glyph: the presentation
/// selectors and the joiner.
pub open spec fn is_invisible_joiner(codepoint: u32) -> bool {
    codepoint == 0xfe0e || codepoint == 0xfe0f || codepoint == 0x200d
}

/// The code point that a grapheme's word holds.
pub open spec fn grapheme_point(word: u32) -> u32 {
    word % 0x20_0000
}

impl GridModel {
    /// Both atlases are valid and every remembered font can exist.
    pub open spec fn wf(self) -> bool {
        &&& self.grayscale.wf()
        &&& self.grayscale.format is Grayscale
        &&& self.color.wf()
        &&& self.color.format is Bgra
        &&& self.resolver.collection.wf()
        &&& forall|key: u64| #[trigger]
            self.codepoints.contains_key(key) ==> (self.codepoints[key] matches Some(index)
                ==> index.wf())
    }

    /// The atlas of a kind.
    pub open spec fn atlas(self, kind: GlyphAtlasKind) -> AtlasModel {
        match kind {
            GlyphAtlasKind::Grayscale => self.grayscale,
            GlyphAtlasKind::Color => self.color,
        }
    }

    /// The grid with another atlas of a kind.
    pub open spec fn with_atlas(self, kind: GlyphAtlasKind, atlas: AtlasModel) -> GridModel {
        match kind {
            GlyphAtlasKind::Grayscale => GridModel { grayscale: atlas, ..self },
            GlyphAtlasKind::Color => GridModel { color: atlas, ..self },
        }
    }

    /// The remembered font of a code point.
    pub open spec fn known(
        self,
        codepoint: u32,
        style: Style,
        presentation: Option<Presentation>,
    ) -> Result<Option<FontIndex>, FontNeed> {
        let key = codepoint_key(codepoint, style, presentation);
        if self.codepoints.contains_key(key) {
            Ok(self.codepoints[key])
        } else {
            Err(FontNeed::Index { codepoint, style, presentation })
        }
    }

    /// Whether a face has all the visible code points of a grapheme from `i`
    /// on.
    pub open spec fn covers_from(self, index: FontIndex, grapheme: Seq<u32>, i: int) -> Result<
        bool,
        FontNeed,
    >
        decreases grapheme.len() - i,
    {
        if i < 0 || i >= grapheme.len() {
            Ok(true)
        } else {
            let point = grapheme_point(grapheme[i]);
            if is_invisible_joiner(point) {
                self.covers_from(index, grapheme, i + 1)
            } else {
                match self.resolver.collection.supports(index, point, None) {
                    Err(need) => Err(need),
                    Ok(false) => Ok(false),
                    Ok(true) => self.covers_from(index, grapheme, i + 1),
                }
            }
        }
    }

    /// Whether a face has a code point, in the presentation asked for, and all
    /// of the rest of its grapheme.
    pub open spec fn covers(
        self,
        index: FontIndex,
        codepoint: u32,
        grapheme: Seq<u32>,
        presentation: Option<Presentation>,
    ) -> Result<bool, FontNeed> {
        match self.resolver.collection.supports(index, codepoint, presentation) {
            Err(need) => Err(need),
            Ok(false) => Ok(false),
            Ok(true) => self.covers_from(index, grapheme, 0),
        }
    }

    /// The first font of a visible code point of the grapheme, from `i` on,
    /// that is not `primary` and has the whole grapheme. The search ends
    /// without a font at a code point that has none.
    pub open spec fn other_font(
        self,
        primary: FontIndex,
        codepoint: u32,
        grapheme: Seq<u32>,
        style: Style,
        presentation: Option<Presentation>,
        i: int,
    ) -> Result<Option<FontIndex>, FontNeed>
        decreases grapheme.len() - i,
    {
        if i < 0 || i >= grapheme.len() {
            Ok(None)
        } else {
            let point = grapheme_point(grapheme[i]);
            if is_invisible_joiner(point) {
                self.other_font(primary, codepoint, grapheme, style, presentation, i + 1)
            } else {
                match self.known(point, style, None) {
                    Err(need) => Err(need),
                    Ok(None) => Ok(None),
                    Ok(Some(index)) => if index == primary {
                        self.other_font(primary, codepoint, grapheme, style, presentation, i + 1)
                    } else {
                        match self.covers(index, codepoint, grapheme, presentation) {
                            Err(need) => Err(need),
                            Ok(true) => Ok(Some(index)),
                            Ok(false) => self.other_font(
                                primary,
                                codepoint,
                                grapheme,
                                style,
                                presentation,
                                i + 1,
                            ),
                        }
                    },
                }
            }
        }
    }

    /// The font of a cell: that of a space for a cell without text, that of
    /// its code point if it has the whole grapheme, else another font that
    /// has.
    pub open spec fn cell_font(
        self,
        cell: RawCell,
        grapheme: Seq<u32>,
        style: Style,
        presentation: Option<Presentation>,
    ) -> Result<Option<FontIndex>, FontNeed> {
        let point = cell.point() as u32;
        if cell.tag() > 1 || point == 0 || point == KITTY_PLACEHOLDER {
            self.known(0x20, style, presentation)
        } else {
            match self.known(point, style, presentation) {
                Err(need) => Err(need),
                Ok(None) => Ok(None),
                Ok(Some(primary)) => if cell.tag() != 1 {
                    Ok(Some(primary))
                } else {
                    match self.covers(primary, point, grapheme, presentation) {
                        Err(need) => Err(need),
                        Ok(true) => Ok(Some(primary)),
                        Ok(false) => self.other_font(
                            primary,
                            point,
                            grapheme,
                            style,
                            presentation,
                            0,
                        ),
                    }
                },
            }
        }
    }

    /// The grid with both atlases empty and no glyphs.
    pub open spec fn reset(self) -> GridModel {
        GridModel {
            grayscale: self.grayscale.cleared(),
            color: self.color.cleared(),
            glyphs: Map::empty(),
            ..self
        }
    }

    /// The grid and the answer after a rasterized glyph was put into its
    /// atlas: the atlas grows as far as it may; then everything is dropped and
    /// the glyph is tried once more.
    pub open spec fn placed(self, key: GlyphKey, raster: RasterizedGlyph) -> (
        GridModel,
        Result<CachedGlyph, RenderError>,
    ) {
        let kind = raster.atlas_kind;
        let width = (raster.width + GLYPH_PADDING) as u32;
        let height = (raster.height + GLYPH_PADDING) as u32;
        let (grown, found) = fitted(self.atlas(kind), self.max_atlas_size, width, height);
        match found {
            Some(region) => self.with_atlas(kind, grown).stored(key, raster, region),
            None => {
                let fresh = self.with_atlas(kind, grown).reset();
                let (again, second) = fitted(fresh.atlas(kind), self.max_atlas_size, width, height);
                match second {
                    Some(region) => fresh.with_atlas(kind, again).stored(key, raster, region),
                    None => (fresh.with_atlas(kind, again), Err(RenderError::AtlasExhausted)),
                }
            },
        }
    }

    /// The grid and the answer after a glyph's pixels were written at the
    /// corner of a region.
    pub open spec fn stored(self, key: GlyphKey, raster: RasterizedGlyph, region: Region) -> (
        GridModel,
        Result<CachedGlyph, RenderError>,
    ) {
        let kind = raster.atlas_kind;
        let target = Region {
            x: region.x,
            y: region.y,
            width: raster.width,
            height: raster.height,
        };
        let glyph = CachedGlyph {
            width: raster.width,
            height: raster.height,
            offset_x: raster.offset_x,
            offset_y: raster.offset_y,
            atlas_x: region.x,
            atlas_y: region.y,
            atlas_kind: Some(kind),
            overlap_split: needs_overlap_split(
                raster.offset_x as int,
                raster.width as int,
                cells_of(key),
                self.raster_cell_width.unwrap_or(0) as int,
            ),
        };
        let written = self.atlas(kind).written(
            target,
            raster.pixels@,
            0,
            raster.width * self.atlas(kind).format.bytes(),
        );
        (
            GridModel {
                glyphs: self.glyphs.insert(key.word(), glyph),
                ..self.with_atlas(kind, written)
            },
            Ok(glyph),
        )
    }

    /// The grid and the answer to a request for a glyph. A remembered glyph is
    /// the answer; a glyph of a face that is not there or without pixels is
    /// blank.
    pub open spec fn rendered(self, key: GlyphKey, raster: Option<RasterizedGlyph>) -> (
        GridModel,
        Result<CachedGlyph, RenderError>,
    ) {
        let blank = CachedGlyph::blank();
        let with_blank = GridModel { glyphs: self.glyphs.insert(key.word(), blank), ..self };
        if self.glyphs.contains_key(key.word()) {
            (self, Ok(self.glyphs[key.word()]))
        } else if self.raster_cell_width is None {
            (self, Err(RenderError::MissingRuntime))
        } else {
            match self.resolver.collection.handle_at(FontIndex::packed(key.font_bits() as u16)) {
                None => (with_blank, Ok(blank)),
                Some(face) => match raster {
                    None => (self, Err(RenderError::NeedsRaster { face })),
                    Some(raster) => if raster.width == 0 || raster.height == 0 {
                        (with_blank, Ok(blank))
                    } else {
                        self.placed(key, raster)
                    },
                },
            }
        }
    }
}

/// Whether an atlas may double its side: the limit, if there is one, allows
/// it and so does the count of its bytes.
pub open spec fn may_grow(atlas: AtlasModel, max_atlas_size: u32) -> bool {
    &&& 0 < atlas.side
    &&& 2 * atlas.side <= u32::MAX
    &&& AtlasModel::fits(2 * atlas.side, atlas.format)
    &&& max_atlas_size == 0 || 2 * atlas.side <= max_atlas_size
}

/// The atlas after as much growing as a request takes, and the region that it
/// was given, if it fits in the end.
pub open spec fn fitted(atlas: AtlasModel, max_atlas_size: u32, width: u32, height: u32) -> (
    AtlasModel,
    Option<Region>,
)
    decreases u32::MAX - atlas.side,
{
    match atlas.reserved(width, height) {
        Some((region, after)) => (after, Some(region)),
        None => if may_grow(atlas, max_atlas_size) {
            fitted(atlas.grown(2 * atlas.side), max_atlas_size, width, height)
        } else {
            (atlas, None)
        },
    }
}

/// The number of cells that a key's glyph occupies, at least one.
pub open spec fn cells_of(key: GlyphKey) -> int {
    let cells = key.option_bits() % 4;
    if cells == 0 {
        1
    } else {
        cells
    }
}

/// Whether a glyph as wide as a cell or wider hangs over its cells by half a
/// cell or more, to the left or to the right.
pub open spec fn needs_overlap_split(
    offset_x: int,
    width: int,
    cell_count: int,
    cell_width: int,
) -> bool {
    let cells = if cell_count == 0 {
        1
    } else {
        cell_count
    };
    &&& cell_width > 0
    &&& width >= cell_width
    &&& 2 * offset_x <= -cell_width || 2 * (offset_x + width) >= 2 * (cell_width * cells)
        + cell_width
}

/// The collection with the first `n` primary faces.
pub open spec fn with_primary_faces(
    collection: CollectionModel,
    faces: Seq<u64>,
    n: int,
) -> CollectionModel
    decreases n,
{
    if n <= 0 {
        collection
    } else {
        with_primary_faces(collection, faces, n - 1).with_face(
            Style::of_rank(n - 1),
            faces[n - 1],
        )
    }
}

/// Whether a primary face finds no place after those before it.
pub open spec fn is_refused(collection: CollectionModel, faces: Seq<u64>, i: int) -> bool {
    with_primary_faces(collection, faces, i).index_for_face(Style::of_rank(i), faces[i]) is None
}

/// The first primary face that finds no place, or the number of faces.
pub open spec fn first_refused(collection: CollectionModel, faces: Seq<u64>) -> int {
    if is_refused(collection, faces, 0) {
        0
    } else if is_refused(collection, faces, 1) {
        1
    } else if is_refused(collection, faces, 2) {
        2
    } else if is_refused(collection, faces, 3) {
        3
    } else {
        4
    }
}

proof fn lemma_first_refused(collection: CollectionModel, faces: Seq<u64>, i: int)
    requires
        0 <= i < 4,
        first_refused(collection, faces) >= i,
    ensures
        is_refused(collection, faces, i) ==> first_refused(collection, faces) == i,
        !is_refused(collection, faces, i) ==> first_refused(collection, faces) >= i + 1,
{
}

/// The font runtime.
pub struct SharedGrid {
    max_atlas_size: u32,
    raster_cell_width: Option<u32>,
    atlas_grayscale: Atlas,
    atlas_color: Atlas,
    codepoints: RapidHashMap<u64, Option<FontIndex>>,
    glyphs: GlyphCache,
    resolver: CodepointResolver,
    metrics: GridMetrics,
}

impl View for SharedGrid {
    type V = GridModel;

    closed spec fn view(&self) -> GridModel {
        GridModel {
            max_atlas_size: self.max_atlas_size,
            raster_cell_width: self.raster_cell_width,
            grayscale: self.atlas_grayscale@,
            color: self.atlas_color@,
            codepoints: self.codepoints@,
            glyphs: self.glyphs@,
            resolver: self.resolver@,
            metrics: self.metrics,
        }
    }
}

/// A grid as it starts.
pub open spec fn new_grid(
    resolver: ResolverModel,
    metrics: GridMetrics,
    max_atlas_size: u32,
) -> GridModel {
    GridModel {
        max_atlas_size,
        raster_cell_width: None,
        grayscale: AtlasModel::empty(INITIAL_SIZE as int, Format::Grayscale),
        color: AtlasModel::empty(INITIAL_SIZE as int, Format::Bgra),
        codepoints: Map::empty(),
        glyphs: Map::empty(),
        resolver,
        metrics,
    }
}

impl SharedGrid {
    /// A grid whose atlases may grow as far as their bytes can be counted.
    pub fn new(resolver: CodepointResolver, metrics: GridMetrics) -> (grid: SharedGrid)
        requires
            resolver@.collection.wf(),
        ensures
            grid@.wf(),
            grid@ == new_grid(resolver@, metrics, 0),
    {
        SharedGrid::with_atlas_max_size(resolver, metrics, 0)
    }

    /// A grid whose atlases may grow up to a side length; 0 is no limit.
    pub fn with_atlas_max_size(
        resolver: CodepointResolver,
        metrics: GridMetrics,
        max_atlas_size: u32,
    ) -> (grid: SharedGrid)
        requires
            resolver@.collection.wf(),
        ensures
            grid@.wf(),
            grid@ == new_grid(resolver@, metrics, max_atlas_size),
    {
        let grid = SharedGrid {
            max_atlas_size,
            raster_cell_width: None,
            atlas_grayscale: Atlas::new(INITIAL_SIZE, Format::Grayscale),
            atlas_color: Atlas::new(INITIAL_SIZE, Format::Bgra),
            codepoints: map_with_capacity(128),
            glyphs: GlyphCache::new(),
            resolver,
            metrics,
        };
        assert(grid@ =~= new_grid(resolver@, metrics, max_atlas_size));
        grid
    }

    /// A grid over a collection, with all variants enabled.
    pub fn with_collection(collection: Collection, metrics: GridMetrics) -> (grid: SharedGrid)
        requires
            collection@.wf(),
        ensures
            grid@.wf(),
            grid@ == new_grid(grid@.resolver, metrics, 0),
            grid@.resolver.collection == collection@,
            forall|style: Style| #[trigger] grid@.resolver.styles.enabled(style),
            !grid@.resolver.has_fallback,
            grid@.resolver.fallback_faces == Map::<u64, Option<u64>>::empty(),
    {
        SharedGrid::new(CodepointResolver::new(collection), metrics)
    }

    pub fn metrics(&self) -> (metrics: GridMetrics)
        ensures
            metrics == self@.metrics,
    {
        self.metrics
    }

    /// The remembered font of a code point, or the need to look it up.
    pub fn known_index(&self, codepoint: u32, style: Style, presentation: Option<Presentation>) -> (index:
        Result<Option<FontIndex>, FontNeed>)
        requires
            self@.wf(),
        ensures
            index == self@.known(codepoint, style, presentation),
            index matches Ok(Some(found)) ==> found.wf(),
    {
        match map_get(&self.codepoints, pack_codepoint_key(codepoint, style, presentation)) {
            Some(found) => Ok(*found),
            None => Err(FontNeed::Index { codepoint, style, presentation }),
        }
    }

    /// The font for a code point, which is looked up and remembered if it was
    /// not before; or what has to be told first.
    pub fn get_index(&mut self, codepoint: u32, style: Style, presentation: Option<Presentation>) -> (index:
        Result<Option<FontIndex>, FontNeed>)
        requires
            old(self)@.wf(),
        ensures
            final(self)@.wf(),
            index matches Ok(Some(found)) ==> found.wf(),
            match old(self)@.known(codepoint, style, presentation) {
                Ok(found) => {
                    &&& index == Ok::<Option<FontIndex>, FontNeed>(found)
                    &&& final(self)@ == old(self)@
                },
                Err(_) => {
                    let resolver = old(self)@.resolver;
                    &&& index == resolver.resolve(codepoint, style, presentation)
                    &&& final(self)@ == (GridModel {
                        resolver: resolver.after(codepoint, style, presentation),
                        codepoints: match index {
                            Ok(found) => old(self)@.codepoints.insert(
                                codepoint_key(codepoint, style, presentation),
                                found,
                            ),
                            Err(_) => old(self)@.codepoints,
                        },
                        ..old(self)@
                    })
                },
            },
    {
        let key: u64 = pack_codepoint_key(codepoint, style, presentation);
        if let Some(found) = map_get(&self.codepoints, key) {
            return Ok(*found);
        }
        let resolved = self.resolver.get_index(codepoint, style, presentation);
        match resolved {
            Ok(found) => {
                let _ = map_insert(&mut self.codepoints, key, found);
                Ok(found)
            },
            Err(need) => Err(need),
        }
    }

    /// Remembers a font for a code point.
    pub fn prime_index(
        &mut self,
        codepoint: u32,
        style: Style,
        presentation: Option<Presentation>,
        value: Option<FontIndex>,
    )
        requires
            old(self)@.wf(),
            value matches Some(index) ==> index.wf(),
        ensures
            final(self)@.wf(),
            final(self)@ == (GridModel {
                codepoints: old(self)@.codepoints.insert(
                    codepoint_key(codepoint, style, presentation),
                    value,
                ),
                ..old(self)@
            }),
    {
        let key: u64 = pack_codepoint_key(codepoint, style, presentation);
        let _ = map_insert(&mut self.codepoints, key, value);
    }

    /// Whether the face of an index supports a code point.
    pub fn has_codepoint(
        &self,
        index: FontIndex,
        codepoint: u32,
        presentation: Option<Presentation>,
    ) -> (supports: Result<bool, FontNeed>)
        requires
            index.wf(),
        ensures
            supports == self@.resolver.collection.supports(index, codepoint, presentation),
    {
        self.resolver.has_codepoint(index, codepoint, presentation)
    }

    /// The handle of the face of an index.
    pub fn face_for_index(&self, index: FontIndex) -> (handle: Option<u64>)
        requires
            index.wf(),
        ensures
            handle == self@.resolver.collection.handle_at(index),
    {
        self.resolver.face_for_index(index)
    }

    /// The font of a cell, or what has to be looked up or told first.
    pub fn index_for_cell(
        &self,
        cell: RawCell,
        graphemes: &[u32],
        style: Style,
        presentation: Option<Presentation>,
    ) -> (index: Result<Option<FontIndex>, FontNeed>)
        requires
            self@.wf(),
        ensures
            index == self@.cell_font(cell, graphemes@, style, presentation),
            index matches Ok(Some(found)) ==> found.wf(),
    {
        let point: u32 = cell.codepoint();
        if !cell.has_text() || point == 0 || point == KITTY_PLACEHOLDER {
            return self.known_index(0x20, style, presentation);
        }
        let primary = match self.known_index(point, style, presentation) {
            Ok(Some(primary)) => primary,
            answer => {
                return answer;
            },
        };
        if !cell.has_grapheme() {
            return Ok(Some(primary));
        }
        match self.candidate_supports_grapheme(primary, point, graphemes, presentation) {
            Err(need) => {
                return Err(need);
            },
            Ok(true) => {
                return Ok(Some(primary));
            },
            Ok(false) => {},
        }
        let mut i: usize = 0;
        while i < graphemes.len()
            invariant
                self@.wf(),
                i <= graphemes@.len(),
                primary.wf(),
                self@.other_font(primary, point, graphemes@, style, presentation, 0)
                    == self@.other_font(
                    primary,
                    point,
                    graphemes@,
                    style,
                    presentation,
                    i as int,
                ),
                self@.cell_font(cell, graphemes@, style, presentation) == self@.other_font(
                    primary,
                    point,
                    graphemes@,
                    style,
                    presentation,
                    0,
                ),
            decreases graphemes@.len() - i,
        {
            let next: u32 = graphemes[i] % 0x20_0000;
            i += 1;
            if next == 0xfe0e || next == 0xfe0f || next == 0x200d {
                continue;
            }
            let index = match self.known_index(next, style, None) {
                Ok(Some(index)) => index,
                answer => {
                    return answer;
                },
            };
            if index == primary {
                continue;
            }
            match self.candidate_supports_grapheme(index, point, graphemes, presentation) {
                Err(need) => {
                    return Err(need);
                },
                Ok(true) => {
                    return Ok(Some(index));
                },
                Ok(false) => {},
            }
        }
        Ok(None)
    }

    /// Whether a face has a code point and the rest of its grapheme.
    fn candidate_supports_grapheme(
        &self,
        index: FontIndex,
        codepoint: u32,
        graphemes: &[u32],
        presentation: Option<Presentation>,
    ) -> (covers: Result<bool, FontNeed>)
        requires
            index.wf(),
        ensures
            covers == self@.covers(index, codepoint, graphemes@, presentation),
    {
        match self.has_codepoint(index, codepoint, presentation) {
            Err(need) => {
                return Err(need);
            },
            Ok(false) => {
                return Ok(false);
            },
            Ok(true) => {},
        }
        let mut i: usize = 0;
        while i < graphemes.len()
            invariant
                index.wf(),
                i <= graphemes@.len(),
                self@.covers(index, codepoint, graphemes@, presentation) == self@.covers_from(
                    index,
                    graphemes@,
                    i as int,
                ),
            decreases graphemes@.len() - i,
        {
            let next: u32 = graphemes[i] % 0x20_0000;
            i += 1;
            if next == 0xfe0e || next == 0xfe0f || next == 0x200d {
                continue;
            }
            match self.has_codepoint(index, next, None) {
                Err(need) => {
                    return Err(need);
                },
                Ok(false) => {
                    return Ok(false);
                },
                Ok(true) => {},
            }
        }
        Ok(true)
    }

    /// Forgets which fonts were looked up.
    pub fn clear_codepoint_cache(&mut self)
        requires
            old(self)@.wf(),
        ensures
            final(self)@.wf(),
            final(self)@ == (GridModel { codepoints: Map::empty(), ..old(self)@ }),
    {
        self.codepoints.clear();
    }

    fn atlas_for_kind(&self, kind: GlyphAtlasKind) -> (atlas: &Atlas)
        ensures
            atlas@ == self@.atlas(kind),
    {
        match kind {
            GlyphAtlasKind::Grayscale => &self.atlas_grayscale,
            GlyphAtlasKind::Color => &self.atlas_color,
        }
    }

    /// The atlas of a kind, to reserve and write in.
    pub fn atlas_for_kind_mut(&mut self, kind: GlyphAtlasKind) -> (atlas: &mut Atlas)
        ensures
            atlas@ == old(self)@.atlas(kind),
            final(self)@ == old(self)@.with_atlas(kind, final(atlas)@),
    {
        match kind {
            GlyphAtlasKind::Grayscale => &mut self.atlas_grayscale,
            GlyphAtlasKind::Color => &mut self.atlas_color,
        }
    }

    /// The atlas of a kind as it is now.
    pub fn atlas_snapshot(&self, kind: GlyphAtlasKind) -> (snapshot: AtlasSnapshot<'_>)
        ensures
            snapshot.shows(self@.atlas(kind)),
    {
        let atlas = self.atlas_for_kind(kind);
        AtlasSnapshot {
            format: atlas.format(),
            size: atlas.size(),
            modified: atlas.modified(),
            resized: atlas.resized(),
            data: atlas.data(),
        }
    }

    /// Hands the atlas of a kind to `f`.
    pub fn with_atlas_snapshot<R, F>(&self, kind: GlyphAtlasKind, f: F) -> (answer: R) where
        F: FnOnce(AtlasSnapshot<'_>) -> R,

        requires
            forall|snapshot: AtlasSnapshot<'_>| #[trigger] f.requires((snapshot,)),
        ensures
            exists|snapshot: AtlasSnapshot<'_>| #[trigger]
                snapshot.shows(self@.atlas(kind)) && f.ensures((snapshot,), answer),
    {
        let snapshot = self.atlas_snapshot(kind);
        assert(snapshot.shows(self@.atlas(kind)));
        f(snapshot)
    }

    /// Adds the primary faces of the four variants, in the order of the
    /// variants, up to the first that finds no place.
    pub fn configure_dwrite_primary_faces(&mut self, faces: [u64; 4]) -> (configured: Result<
        (),
        CollectionFullError,
    >)
        requires
            old(self)@.wf(),
        ensures
            final(self)@.wf(),
            ({
                let before = old(self)@.resolver.collection;
                &&& configured is Ok == (first_refused(before, faces@) == 4)
                &&& final(self)@ == (GridModel {
                    resolver: ResolverModel {
                        collection: with_primary_faces(
                            before,
                            faces@,
                            first_refused(before, faces@),
                        ),
                        ..old(self)@.resolver
                    },
                    ..old(self)@
                })
            }),
    {
        let styles = Style::all();
        let ghost before = self@.resolver.collection;
        let mut i: usize = 0;
        while i < 4
            invariant
                i <= 4,
                self@.wf(),
                before == old(self)@.resolver.collection,
                forall|k: int| 0 <= k < 4 ==> #[trigger] styles[k] == Style::of_rank(k),
                self@ == (GridModel {
                    resolver: ResolverModel {
                        collection: with_primary_faces(before, faces@, i as int),
                        ..old(self)@.resolver
                    },
                    ..old(self)@
                }),
                first_refused(before, faces@) >= i,
            decreases 4 - i,
        {
            let style = styles[i];
            let face = faces[i];
            proof {
                lemma_first_refused(before, faces@, i as int);
            }
            let added = self.resolver.add_dwrite_face(style, face);
            match added {
                Ok(_) => {},
                Err(error) => {
                    proof {
                        crate::font::collection::law_refused_face_changes_nothing(
                            with_primary_faces(before, faces@, i as int),
                            style,
                            face,
                        );
                    }
                    return Err(error);
                },
            }
            i += 1;
        }
        Ok(())
    }

    /// Sets the grid up with the primary faces of the four variants, in the
    /// order of the variants, with its metrics and with the cell width in
    /// pixels, and forgets which fonts were looked up. `fallback` says whether
    /// the system may be asked for further faces.
    pub fn configure_dwrite(
        &mut self,
        faces: [u64; 4],
        fallback: bool,
        metrics: GridMetrics,
        raster_cell_width: u32,
    ) -> (configured: Result<(), CollectionFullError>)
        requires
            old(self)@.wf(),
        ensures
            final(self)@.wf(),
            ({
                let before = old(self)@.resolver.collection;
                let added = with_primary_faces(before, faces@, 4);
                &&& configured is Ok == (first_refused(before, faces@) == 4)
                &&& configured is Ok ==> final(self)@ == (GridModel {
                    resolver: ResolverModel {
                        collection: added,
                        has_fallback: old(self)@.resolver.has_fallback || fallback,
                        fallback_faces: if fallback {
                            Map::empty()
                        } else {
                            old(self)@.resolver.fallback_faces
                        },
                        ..old(self)@.resolver
                    },
                    codepoints: Map::empty(),
                    metrics,
                    raster_cell_width: Some(raster_cell_width),
                    ..old(self)@
                })
                &&& configured is Err ==> final(self)@ == (GridModel {
                    resolver: ResolverModel {
                        collection: with_primary_faces(
                            before,
                            faces@,
                            first_refused(before, faces@),
                        ),
                        ..old(self)@.resolver
                    },
                    ..old(self)@
                })
            }),
    {
        match self.configure_dwrite_primary_faces(faces) {
            Ok(()) => {},
            Err(error) => {
                return Err(error);
            },
        }
        if fallback {
            self.resolver.set_dwrite_fallback();
        }
        self.codepoints.clear();
        self.metrics = metrics;
        self.raster_cell_width = Some(raster_cell_width);
        Ok(())
    }

    /// Lets the system be asked for faces.
    pub fn set_dwrite_fallback(&mut self)
        requires
            old(self)@.wf(),
        ensures
            final(self)@.wf(),
            final(self)@ == (GridModel {
                resolver: ResolverModel {
                    has_fallback: true,
                    fallback_faces: Map::empty(),
                    ..old(self)@.resolver
                },
                ..old(self)@
            }),
    {
        self.resolver.set_dwrite_fallback();
    }

    /// Tells the glyph that the face of an index has for a code point.
    pub fn tell_glyph(&mut self, index: FontIndex, codepoint: u32, glyph: u16)
        requires
            index.wf(),
            old(self)@.wf(),
        ensures
            final(self)@.wf(),
            final(self)@ == (GridModel {
                resolver: ResolverModel {
                    collection: old(self)@.resolver.collection.told_glyph(index, codepoint, glyph),
                    ..old(self)@.resolver
                },
                ..old(self)@
            }),
    {
        self.resolver.tell_glyph(index, codepoint, glyph);
    }

    /// Tells whether a glyph of the face of an index is coloured.
    pub fn tell_color(&mut self, index: FontIndex, glyph: u16, colored: bool)
        requires
            index.wf(),
            old(self)@.wf(),
        ensures
            final(self)@.wf(),
            final(self)@ == (GridModel {
                resolver: ResolverModel {
                    collection: old(self)@.resolver.collection.told_color(index, glyph, colored),
                    ..old(self)@.resolver
                },
                ..old(self)@
            }),
    {
        self.resolver.tell_color(index, glyph, colored);
    }

    /// Tells the face that the system falls back to for a code point.
    pub fn tell_fallback(&mut self, codepoint: u32, handle: Option<u64>)
        requires
            old(self)@.wf(),
        ensures
            final(self)@.wf(),
            final(self)@ == (GridModel {
                resolver: ResolverModel {
                    fallback_faces: old(self)@.resolver.fallback_faces.insert(
                        codepoint as u64,
                        handle,
                    ),
                    ..old(self)@.resolver
                },
                ..old(self)@
            }),
    {
        self.resolver.tell_fallback(codepoint, handle);
    }

    /// Doubles the side of an atlas, if it may, and says whether it did.
    pub fn try_grow_atlas(&mut self, kind: GlyphAtlasKind) -> (grew: bool)
        requires
            old(self)@.wf(),
        ensures
            final(self)@.wf(),
            grew == may_grow(old(self)@.atlas(kind), old(self)@.max_atlas_size),
            final(self)@ == if grew {
                old(self)@.with_atlas(
                    kind,
                    old(self)@.atlas(kind).grown(2 * old(self)@.atlas(kind).side),
                )
            } else {
                old(self)@
            },
    {
        let max: u32 = self.max_atlas_size;
        let size: u32 = self.atlas_for_kind(kind).size();
        if size > 0x7fff_ffff {
            return false;
        }
        let new_size: u32 = size * 2;
        let depth: u32 = self.atlas_for_kind(kind).format().depth();
        let stride: u64 = (new_size as u64) * (depth as u64);
        assert(stride <= u32::MAX * 4) by (nonlinear_arith)
            requires
                stride == new_size * depth,
                0 <= new_size <= u32::MAX,
                0 <= depth <= 4,
        ;
        if stride > 0xffff_ffff {
            assert(new_size * stride >= stride) by (nonlinear_arith)
                requires
                    new_size >= 1,
                    stride >= 0,
            ;
            return false;
        }
        assert(new_size * stride <= u32::MAX * u32::MAX) by (nonlinear_arith)
            requires
                0 <= new_size <= u32::MAX,
                0 <= stride <= u32::MAX,
        ;
        let bytes: u64 = (new_size as u64) * stride;
        if bytes > 0xffff_ffff {
            return false;
        }
        if max > 0 && new_size > max {
            return false;
        }
        let atlas = self.atlas_for_kind_mut(kind);
        atlas.grow(new_size);
        true
    }

    /// Empties both atlases.
    pub fn reset_all_atlases(&mut self)
        requires
            old(self)@.wf(),
        ensures
            final(self)@.wf(),
            final(self)@ == (GridModel {
                grayscale: old(self)@.grayscale.cleared(),
                color: old(self)@.color.cleared(),
                ..old(self)@
            }),
    {
        self.atlas_grayscale.clear();
        self.atlas_color.clear();
    }

    /// Reserves a region in an atlas, growing the atlas as far as it may.
    fn fit_glyph(&mut self, kind: GlyphAtlasKind, width: u32, height: u32) -> (found: Option<Region>)
        requires
            old(self)@.wf(),
        ensures
            final(self)@.wf(),
            ({
                let (atlas, region) = fitted(
                    old(self)@.atlas(kind),
                    old(self)@.max_atlas_size,
                    width,
                    height,
                );
                &&& found == region
                &&& final(self)@ == old(self)@.with_atlas(kind, atlas)
            }),
    {
        let ghost start = self@;
        loop
            invariant
                self@.wf(),
                start == old(self)@,
                self@ == start.with_atlas(kind, self@.atlas(kind)),
                self@.max_atlas_size == start.max_atlas_size,
                fitted(self@.atlas(kind), start.max_atlas_size, width, height) == fitted(
                    start.atlas(kind),
                    start.max_atlas_size,
                    width,
                    height,
                ),
            decreases u32::MAX - self@.atlas(kind).side,
        {
            let ghost before = self@.atlas(kind);
            let atlas = self.atlas_for_kind_mut(kind);
            match atlas.reserve(width, height) {
                Ok(region) => {
                    return Some(region);
                },
                Err(_) => {
                    assert(self@ =~= start.with_atlas(kind, before));
                    if !self.try_grow_atlas(kind) {
                        return None;
                    }
                },
            }
        }
    }

    /// Writes a glyph at the corner of a region and remembers it.
    fn store_glyph(&mut self, key: GlyphKey, raster: &RasterizedGlyph, region: Region) -> (glyph:
        CachedGlyph)
        requires
            old(self)@.wf(),
            raster.wf(),
            raster.width > 0,
            raster.height > 0,
            old(self)@.raster_cell_width is Some,
            (Region {
                x: region.x,
                y: region.y,
                width: raster.width,
                height: raster.height,
            }).writable(old(self)@.atlas(raster.atlas_kind).side),
            !old(self)@.glyphs.contains_key(key.word()),
        ensures
            final(self)@.wf(),
            (final(self)@, Ok::<CachedGlyph, RenderError>(glyph)) == old(self)@.stored(
                key,
                *raster,
                region,
            ),
    {
        let kind = raster.atlas_kind;
        let cell_width: u32 = match self.raster_cell_width {
            Some(width) => width,
            None => 0,
        };
        let target = Region {
            x: region.x,
            y: region.y,
            width: raster.width,
            height: raster.height,
        };
        let glyph = CachedGlyph {
            width: raster.width,
            height: raster.height,
            offset_x: raster.offset_x,
            offset_y: raster.offset_y,
            atlas_x: region.x,
            atlas_y: region.y,
            atlas_kind: Some(kind),
            overlap_split: Self::glyph_needs_overlap_split(
                raster.offset_x,
                raster.width,
                Self::glyph_cell_width(key),
                cell_width,
            ),
        };
        let atlas = self.atlas_for_kind_mut(kind);
        atlas.set(target, raster.pixels.as_slice());
        let kept = self.glyphs.insert_or_get_existing(key, glyph);
        kept
    }

    /// The glyph of a key. `raster` is what the key's face draws for it, or
    /// nothing as long as it was not drawn: then the answer may be that it has
    /// to be.
    pub fn render_glyph(&mut self, key: GlyphKey, raster: Option<&RasterizedGlyph>) -> (glyph: Result<
        CachedGlyph,
        RenderError,
    >)
        requires
            old(self)@.wf(),
            key.font_bits() < 4 * 8192,
            raster matches Some(raster) ==> raster.wf(),
        ensures
            final(self)@.wf(),
            (final(self)@, glyph) == old(self)@.rendered(
                key,
                match raster {
                    Some(raster) => Some(*raster),
                    None => None,
                },
            ),
    {
        if let Some(found) = self.glyphs.get(&key) {
            return Ok(*found);
        }
        if self.raster_cell_width.is_none() {
            return Err(RenderError::MissingRuntime);
        }
        let index = key.font_index();
        let face: u64 = match self.resolver.face_for_index(index) {
            Some(face) => face,
            None => {
                return Ok(self.glyphs.insert_or_get_existing(key, CachedGlyph::default()));
            },
        };
        let raster: &RasterizedGlyph = match raster {
            Some(raster) => raster,
            None => {
                return Err(RenderError::NeedsRaster { face });
            },
        };
        if raster.width == 0 || raster.height == 0 {
            return Ok(self.glyphs.insert_or_get_existing(key, CachedGlyph::default()));
        }
        let kind = raster.atlas_kind;
        let width: u32 = raster.width + GLYPH_PADDING;
        let height: u32 = raster.height + GLYPH_PADDING;
        proof {
            lemma_fitted(self@.atlas(kind), self@.max_atlas_size, width, height);
        }
        if let Some(region) = self.fit_glyph(kind, width, height) {
            return Ok(self.store_glyph(key, raster, region));
        }
        self.reset_all_atlases();
        self.glyphs.clear();
        assert(self@ =~= old(self)@.with_atlas(
            kind,
            fitted(old(self)@.atlas(kind), old(self)@.max_atlas_size, width, height).0,
        ).reset());
        proof {
            lemma_fitted(self@.atlas(kind), self@.max_atlas_size, width, height);
        }
        if let Some(region) = self.fit_glyph(kind, width, height) {
            return Ok(self.store_glyph(key, raster, region));
        }
        Err(RenderError::AtlasExhausted)
    }

    /// Whether a glyph hangs over its cells so far that each cell's part of it
    /// has to be drawn on its own.
    pub fn glyph_needs_overlap_split(
        offset_x: i32,
        width: u32,
        cell_width_count: u8,
        raster_cell_width: u32,
    ) -> (split: bool)
        ensures
            split == needs_overlap_split(
                offset_x as int,
                width as int,
                cell_width_count as int,
                raster_cell_width as int,
            ),
    {
        if raster_cell_width == 0 || width < raster_cell_width {
            return false;
        }
        let cells: i64 = if cell_width_count == 0 {
            1
        } else {
            cell_width_count as i64
        };
        let cell: i64 = raster_cell_width as i64;
        assert(0 <= cell * cells <= u32::MAX * 255) by (nonlinear_arith)
            requires
                0 <= cell <= u32::MAX,
                0 <= cells <= 255,
        ;
        let advance: i64 = cell * cells;
        let left: i64 = offset_x as i64;
        let right: i64 = left + width as i64;
        2 * left <= -cell || 2 * right >= 2 * advance + cell
    }

    /// The number of cells that a key's glyph occupies, at least one.
    pub fn glyph_cell_width(key: GlyphKey) -> (cells: u8)
        ensures
            cells == cells_of(key),
    {
        let cells: u8 = (key.packed_options() % 4) as u8;
        if cells == 0 {
            1
        } else {
            cells
        }
    }
}

/// A region that was found lies in the interior of the atlas in the end, and
/// that atlas is valid.
proof fn lemma_fitted(atlas: AtlasModel, max_atlas_size: u32, width: u32, height: u32)
    requires
        atlas.wf(),
        width > 0,
        height > 0,
    ensures
        ({
            let (after, found) = fitted(atlas, max_atlas_size, width, height);
            &&& after.wf()
            &&& after.format == atlas.format
            &&& found matches Some(region) ==> {
                &&& region.width == width
                &&& region.height == height
                &&& crate::font::atlas::is_interior(region, after.side)
            }
        }),
    decreases u32::MAX - atlas.side,
{
    if atlas.reserved(width, height) is Some {
        crate::font::atlas::law_reserved_region_is_interior(atlas, width, height);
    } else if may_grow(atlas, max_atlas_size) {
        crate::font::atlas::lemma_grown_wf(atlas, 2 * atlas.side);
        lemma_fitted(atlas.grown(2 * atlas.side), max_atlas_size, width, height);
    }
}

/// The rectangle that a glyph takes in its atlas.
pub open spec fn glyph_region(glyph: CachedGlyph) -> Region {
    Region { x: glyph.atlas_x, y: glyph.atlas_y, width: glyph.width, height: glyph.height }
}

/// Every remembered glyph with pixels lies on ground that the atlas counts as
/// taken.
pub open spec fn glyphs_are_taken(grid: GridModel) -> bool {
    forall|key: u64| #[trigger]
        grid.glyphs.contains_key(key) ==> (grid.glyphs[key].atlas_kind matches Some(kind) ==> {
            let region = glyph_region(grid.glyphs[key]);
            &&& crate::font::atlas::is_interior(region, grid.atlas(kind).side)
            &&& crate::font::atlas::is_taken(grid.atlas(kind).skyline, region)
        })
}

/// Finding a place, with all the growing that it takes, keeps taken what was
/// taken, keeps clear of it and keeps its pixels.
proof fn lemma_fitted_keeps(
    atlas: AtlasModel,
    max_atlas_size: u32,
    width: u32,
    height: u32,
    earlier: Region,
)
    requires
        atlas.wf(),
        width > 0,
        height > 0,
        crate::font::atlas::is_interior(earlier, atlas.side),
        crate::font::atlas::is_taken(atlas.skyline, earlier),
    ensures
        ({
            let (after, found) = fitted(atlas, max_atlas_size, width, height);
            &&& crate::font::atlas::is_interior(earlier, after.side)
            &&& crate::font::atlas::is_taken(after.skyline, earlier)
            &&& found matches Some(region) ==> {
                &&& crate::font::atlas::is_taken(after.skyline, region)
                &&& forall|px: int, py: int|
                    !(#[trigger] earlier.contains(px, py) && region.contains(px, py))
            }
            &&& forall|px: int, py: int, b: int| #[trigger]
                earlier.contains(px, py) && 0 <= b < atlas.format.bytes()
                    ==> #[trigger] crate::font::atlas::pixel_byte(
                    after.pixels,
                    after.side,
                    after.format,
                    px,
                    py,
                    b,
                ) == crate::font::atlas::pixel_byte(
                    atlas.pixels,
                    atlas.side,
                    atlas.format,
                    px,
                    py,
                    b,
                )
        }),
    decreases u32::MAX - atlas.side,
{
    if atlas.reserved(width, height) is Some {
        crate::font::atlas::law_reservations_are_disjoint(
            atlas.skyline,
            atlas.side,
            earlier,
            width,
            height,
        );
    } else if may_grow(atlas, max_atlas_size) {
        let larger = atlas.grown(2 * atlas.side);
        crate::font::atlas::lemma_grown_wf(atlas, 2 * atlas.side);
        crate::font::atlas::law_grow_keeps_reservations(
            atlas.skyline,
            atlas.side,
            2 * atlas.side,
            earlier,
        );
        lemma_fitted_keeps(larger, max_atlas_size, width, height, earlier);
        assert forall|px: int, py: int, b: int| #[trigger]
            earlier.contains(px, py) && 0 <= b
                < atlas.format.bytes() implies #[trigger] crate::font::atlas::pixel_byte(
            larger.pixels,
            larger.side,
            larger.format,
            px,
            py,
            b,
        ) == crate::font::atlas::pixel_byte(
            atlas.pixels,
            atlas.side,
            atlas.format,
            px,
            py,
            b,
        ) by {
            crate::font::atlas::law_grow_keeps_pixels(
                atlas.pixels,
                atlas.side,
                2 * atlas.side,
                atlas.format,
                px,
                py,
                b,
            );
        }
    }
}

/// Rendering a glyph that is not remembered keeps every glyph that stays
/// remembered on taken ground, and a glyph that is put into an atlas shares no
/// pixel with another one there.
pub proof fn law_glyphs_keep_apart(grid: GridModel, key: GlyphKey, raster: RasterizedGlyph)
    requires
        grid.wf(),
        glyphs_are_taken(grid),
        raster.wf(),
        raster.width > 0,
        raster.height > 0,
        !grid.glyphs.contains_key(key.word()),
    ensures
        ({
            let (after, answer) = grid.placed(key, raster);
            &&& glyphs_are_taken(after)
            &&& answer matches Ok(glyph) ==> forall|other: u64| #[trigger]
                after.glyphs.contains_key(other) && other != key.word()
                    && after.glyphs[other].atlas_kind == glyph.atlas_kind ==> forall|
                    px: int,
                    py: int,
                |
                    !(#[trigger] glyph_region(after.glyphs[other]).contains(px, py)
                        && glyph_region(glyph).contains(px, py))
        }),
{
    let kind = raster.atlas_kind;
    let width = (raster.width + GLYPH_PADDING) as u32;
    let height = (raster.height + GLYPH_PADDING) as u32;
    let (grown, found) = fitted(grid.atlas(kind), grid.max_atlas_size, width, height);
    lemma_fitted(grid.atlas(kind), grid.max_atlas_size, width, height);
    let (after, answer) = grid.placed(key, raster);
    match found {
        Some(region) => {
            let middle = grid.with_atlas(kind, grown);
            assert(after == middle.stored(key, raster, region).0);
            assert forall|other: u64| #[trigger]
                grid.glyphs.contains_key(other) && grid.glyphs[other].atlas_kind == Some(
                    kind,
                ) implies {
                let earlier = glyph_region(grid.glyphs[other]);
                &&& crate::font::atlas::is_interior(earlier, grown.side)
                &&& crate::font::atlas::is_taken(grown.skyline, earlier)
                &&& forall|px: int, py: int|
                    !(#[trigger] earlier.contains(px, py) && region.contains(px, py))
            } by {
                lemma_fitted_keeps(
                    grid.atlas(kind),
                    grid.max_atlas_size,
                    width,
                    height,
                    glyph_region(grid.glyphs[other]),
                );
            }
            lemma_region_is_taken(grid.atlas(kind), grid.max_atlas_size, width, height);
            lemma_stored_apart(middle, key, raster, region);
        },
        None => {
            let fresh = grid.with_atlas(kind, grown).reset();
            let (again, second) = fitted(
                fresh.atlas(kind),
                grid.max_atlas_size,
                width,
                height,
            );
            lemma_cleared_wf(grid.with_atlas(kind, grown).grayscale);
            lemma_cleared_wf(grid.with_atlas(kind, grown).color);
            lemma_fitted(fresh.atlas(kind), grid.max_atlas_size, width, height);
            if let Some(region) = second {
                lemma_region_is_taken(fresh.atlas(kind), grid.max_atlas_size, width, height);
                lemma_stored_apart(fresh.with_atlas(kind, again), key, raster, region);
            }
        },
    }
}

/// Rendering a glyph leaves the pixels of every glyph that stays remembered
/// as they were, at their old place.
pub proof fn law_glyph_pixels_last(
    grid: GridModel,
    key: GlyphKey,
    raster: RasterizedGlyph,
    other: u64,
    kind: GlyphAtlasKind,
    px: int,
    py: int,
    b: int,
)
    requires
        grid.wf(),
        glyphs_are_taken(grid),
        raster.wf(),
        raster.width > 0,
        raster.height > 0,
        !grid.glyphs.contains_key(key.word()),
        grid.glyphs.contains_key(other),
        grid.glyphs[other].atlas_kind == Some(kind),
        glyph_region(grid.glyphs[other]).contains(px, py),
        0 <= b < format_of(kind).bytes(),
    ensures
        ({
            let after = grid.placed(key, raster).0;
            after.glyphs.contains_key(other) ==> {
                &&& after.glyphs[other] == grid.glyphs[other]
                &&& crate::font::atlas::pixel_byte(
                    after.atlas(kind).pixels,
                    after.atlas(kind).side,
                    after.atlas(kind).format,
                    px,
                    py,
                    b,
                ) == crate::font::atlas::pixel_byte(
                    grid.atlas(kind).pixels,
                    grid.atlas(kind).side,
                    grid.atlas(kind).format,
                    px,
                    py,
                    b,
                )
            }
        }),
{
    let own = raster.atlas_kind;
    let width = (raster.width + GLYPH_PADDING) as u32;
    let height = (raster.height + GLYPH_PADDING) as u32;
    let (grown, found) = fitted(grid.atlas(own), grid.max_atlas_size, width, height);
    lemma_fitted(grid.atlas(own), grid.max_atlas_size, width, height);
    let earlier = glyph_region(grid.glyphs[other]);
    if let Some(region) = found {
        if own == kind {
            lemma_fitted_keeps(grid.atlas(own), grid.max_atlas_size, width, height, earlier);
            let target = Region {
                x: region.x,
                y: region.y,
                width: raster.width,
                height: raster.height,
            };
            assert(earlier.contains(px, py));
            assert(!target.contains(px, py)) by {
                if target.contains(px, py) {
                    assert(region.contains(px, py));
                }
            }
            crate::font::atlas::law_set_writes_the_region(
                grown.pixels,
                grown.side,
                grown.format,
                target,
                raster.pixels@,
                px,
                py,
                b,
            );
        }
    }
}

/// An emptied atlas is valid.
proof fn lemma_cleared_wf(atlas: AtlasModel)
    requires
        atlas.wf(),
    ensures
        atlas.cleared().wf(),
{
}

/// A region that was found is taken in the atlas in the end.
proof fn lemma_region_is_taken(atlas: AtlasModel, max_atlas_size: u32, width: u32, height: u32)
    requires
        atlas.wf(),
        width > 0,
        height > 0,
    ensures
        ({
            let (after, found) = fitted(atlas, max_atlas_size, width, height);
            found matches Some(region) ==> crate::font::atlas::is_taken(after.skyline, region)
        }),
    decreases u32::MAX - atlas.side,
{
    if atlas.reserved(width, height) is Some {
        let nothing = Region { x: 1, y: 1, width: 0, height: 0 };
        crate::font::atlas::law_reservations_are_disjoint(
            atlas.skyline,
            atlas.side,
            nothing,
            width,
            height,
        );
    } else if may_grow(atlas, max_atlas_size) {
        crate::font::atlas::lemma_grown_wf(atlas, 2 * atlas.side);
        lemma_region_is_taken(atlas.grown(2 * atlas.side), max_atlas_size, width, height);
    }
}

/// Storing a glyph in a region that the others keep clear of.
proof fn lemma_stored_apart(grid: GridModel, key: GlyphKey, raster: RasterizedGlyph, region: Region)
    requires
        glyphs_are_taken(grid),
        raster.width < u32::MAX,
        raster.height < u32::MAX,
        region.width == raster.width + GLYPH_PADDING,
        region.height == raster.height + GLYPH_PADDING,
        crate::font::atlas::is_interior(region, grid.atlas(raster.atlas_kind).side),
        crate::font::atlas::is_taken(grid.atlas(raster.atlas_kind).skyline, region),
        forall|other: u64| #[trigger]
            grid.glyphs.contains_key(other) && grid.glyphs[other].atlas_kind == Some(
                raster.atlas_kind,
            ) ==> forall|px: int, py: int|
                !(#[trigger] glyph_region(grid.glyphs[other]).contains(px, py) && region.contains(
                    px,
                    py,
                )),
    ensures
        ({
            let (after, answer) = grid.stored(key, raster, region);
            &&& glyphs_are_taken(after)
            &&& answer matches Ok(glyph) && forall|other: u64| #[trigger]
                after.glyphs.contains_key(other) && other != key.word()
                    && after.glyphs[other].atlas_kind == glyph.atlas_kind ==> forall|
                    px: int,
                    py: int,
                |
                    !(#[trigger] glyph_region(after.glyphs[other]).contains(px, py)
                        && glyph_region(glyph).contains(px, py))
        }),
{
    let (after, answer) = grid.stored(key, raster, region);
    let glyph = after.glyphs[key.word()];
    let own = glyph_region(glyph);
    assert(crate::font::atlas::is_taken(grid.atlas(raster.atlas_kind).skyline, own)) by {
        assert forall|px: int| own.x <= px < own.x + own.width implies own.y + own.height
            <= #[trigger] crate::font::atlas::level(
            grid.atlas(raster.atlas_kind).skyline,
            px,
        ) by {
            assert(region.y + region.height <= crate::font::atlas::level(
                grid.atlas(raster.atlas_kind).skyline,
                px,
            ));
        }
    }
    assert forall|other: u64| #[trigger]
        after.glyphs.contains_key(other) && other != key.word() && after.glyphs[other].atlas_kind
            == glyph.atlas_kind implies forall|px: int, py: int|
        !(#[trigger] glyph_region(after.glyphs[other]).contains(px, py) && own.contains(px, py)) by {
        assert(grid.glyphs.contains_key(other));
        assert forall|px: int, py: int|
            !(#[trigger] glyph_region(after.glyphs[other]).contains(px, py) && own.contains(
                px,
                py,
            )) by {
            if own.contains(px, py) {
                assert(region.contains(px, py));
            }
        }
    }
    assert forall|other: u64| #[trigger]
        after.glyphs.contains_key(other) && other != key.word() implies grid.glyphs.contains_key(
        other,
    ) by {}
}

/// A glyph that was rendered is remembered: asking again gives the same and
/// changes nothing, whatever is drawn for it then.
pub proof fn law_rendered_glyph_is_remembered(
    grid: GridModel,
    key: GlyphKey,
    raster: Option<RasterizedGlyph>,
    later: Option<RasterizedGlyph>,
)
    ensures
        ({
            let (after, answer) = grid.rendered(key, raster);
            answer is Ok ==> after.rendered(key, later) == (after, answer)
        }),
{
}

/// What comes of a request for a glyph. A grid without fonts has none. A
/// remembered glyph is the answer. Otherwise a glyph whose font is not there, or
/// that has no pixels, is blank and remembered as such; one that was not drawn yet
/// has to be, from the face of the key's font, and nothing changes.
pub proof fn law_request_for_a_glyph(grid: GridModel, key: GlyphKey, raster: Option<RasterizedGlyph>)
    ensures
        ({
            let (after, answer) = grid.rendered(key, raster);
            let face = grid.resolver.collection.handle_at(
                FontIndex::packed((key.word() % 0x1_0000) as u16),
            );
            let drawn = raster matches Some(r) && r.width > 0 && r.height > 0;
            &&& grid.glyphs.contains_key(key.word()) ==> after == grid && answer == Ok::<
                CachedGlyph,
                RenderError,
            >(grid.glyphs[key.word()])
            &&& !grid.glyphs.contains_key(key.word()) ==> {
                &&& grid.raster_cell_width is None <==> answer == Err::<CachedGlyph, RenderError>(
                    RenderError::MissingRuntime,
                )
                &&& grid.raster_cell_width is None ==> after == grid
                &&& grid.raster_cell_width is Some && (face is None || (raster is Some && !drawn))
                    ==> {
                    &&& answer matches Ok(glyph) && glyph.width == 0 && glyph.height == 0
                        && glyph.atlas_kind is None
                    &&& after.glyphs.contains_key(key.word())
                    &&& answer == Ok::<CachedGlyph, RenderError>(after.glyphs[key.word()])
                    &&& after.grayscale == grid.grayscale
                    &&& after.color == grid.color
                }
                &&& grid.raster_cell_width is Some && face is Some && raster is None ==> {
                    &&& after == grid
                    &&& answer == Err::<CachedGlyph, RenderError>(
                        RenderError::NeedsRaster { face: face->0 },
                    )
                }
            }
        }),
{
}

/// A glyph that is put into an atlas has the size, the offsets and the kind of
/// what was drawn, lies off the border, is remembered under its key, and its
/// pixels in the atlas are those that were drawn.
pub proof fn law_drawn_glyph_stands_in_its_atlas(
    grid: GridModel,
    key: GlyphKey,
    raster: RasterizedGlyph,
    dx: int,
    dy: int,
    b: int,
)
    requires
        grid.wf(),
        raster.wf(),
        0 <= dx < raster.width,
        0 <= dy < raster.height,
        0 <= b < format_of(raster.atlas_kind).bytes(),
    ensures
        ({
            let (after, answer) = grid.placed(key, raster);
            let atlas = after.atlas(raster.atlas_kind);
            answer matches Ok(glyph) ==> {
                &&& glyph.width == raster.width
                &&& glyph.height == raster.height
                &&& glyph.offset_x == raster.offset_x
                &&& glyph.offset_y == raster.offset_y
                &&& glyph.atlas_kind == Some(raster.atlas_kind)
                &&& after.glyphs.contains_key(key.word())
                &&& after.glyphs[key.word()] == glyph
                &&& 1 <= glyph.atlas_x
                &&& 1 <= glyph.atlas_y
                &&& glyph.atlas_x + glyph.width < atlas.side - 1
                &&& glyph.atlas_y + glyph.height < atlas.side - 1
                &&& crate::font::atlas::pixel_byte(
                    atlas.pixels,
                    atlas.side,
                    atlas.format,
                    glyph.atlas_x + dx,
                    glyph.atlas_y + dy,
                    b,
                ) == raster.pixels@[(dy * raster.width + dx) * format_of(raster.atlas_kind).bytes()
                    + b]
            }
        }),
{
    let kind = raster.atlas_kind;
    let width = (raster.width + GLYPH_PADDING) as u32;
    let height = (raster.height + GLYPH_PADDING) as u32;
    let (grown, found) = fitted(grid.atlas(kind), grid.max_atlas_size, width, height);
    lemma_fitted(grid.atlas(kind), grid.max_atlas_size, width, height);
    match found {
        Some(region) => {
            lemma_stored_pixels(grid.with_atlas(kind, grown), key, raster, region, dx, dy, b);
        },
        None => {
            let fresh = grid.with_atlas(kind, grown).reset();
            lemma_cleared_wf(grown);
            let (again, second) = fitted(fresh.atlas(kind), grid.max_atlas_size, width, height);
            lemma_fitted(fresh.atlas(kind), grid.max_atlas_size, width, height);
            if let Some(region) = second {
                lemma_stored_pixels(fresh.with_atlas(kind, again), key, raster, region, dx, dy, b);
            }
        },
    }
}

proof fn lemma_stored_pixels(
    grid: GridModel,
    key: GlyphKey,
    raster: RasterizedGlyph,
    region: Region,
    dx: int,
    dy: int,
    b: int,
)
    requires
        grid.atlas(raster.atlas_kind).wf(),
        grid.atlas(raster.atlas_kind).format == format_of(raster.atlas_kind),
        raster.wf(),
        region.width == raster.width + 1,
        region.height == raster.height + 1,
        crate::font::atlas::is_interior(region, grid.atlas(raster.atlas_kind).side),
        0 <= dx < raster.width,
        0 <= dy < raster.height,
        0 <= b < format_of(raster.atlas_kind).bytes(),
    ensures
        ({
            let (after, answer) = grid.stored(key, raster, region);
            let atlas = after.atlas(raster.atlas_kind);
            answer matches Ok(glyph) && {
                &&& glyph.atlas_x == region.x
                &&& glyph.atlas_y == region.y
                &&& atlas.side == grid.atlas(raster.atlas_kind).side
                &&& crate::font::atlas::pixel_byte(
                    atlas.pixels,
                    atlas.side,
                    atlas.format,
                    region.x + dx,
                    region.y + dy,
                    b,
                ) == raster.pixels@[(dy * raster.width + dx) * format_of(raster.atlas_kind).bytes()
                    + b]
            }
        }),
{
    let kind = raster.atlas_kind;
    let atlas = grid.atlas(kind);
    let d = format_of(kind).bytes();
    let w = raster.width as int;
    let target = Region {
        x: region.x,
        y: region.y,
        width: raster.width,
        height: raster.height,
    };
    assert(target.contains(region.x + dx, region.y + dy));
    crate::font::atlas::law_set_writes_the_region(
        atlas.pixels,
        atlas.side,
        atlas.format,
        target,
        raster.pixels@,
        region.x + dx,
        region.y + dy,
        b,
    );
    assert(dy * (w * d) + dx * d == (dy * w + dx) * d) by (nonlinear_arith);
}

/// An atlas grows only if a request does not fit, and only by doubling its side,
/// up to its limit. A request that is not met in the end fits no more, and the
/// atlas may grow no more.
pub proof fn law_atlas_grows_as_needed(
    atlas: AtlasModel,
    max_atlas_size: u32,
    width: u32,
    height: u32,
)
    ensures
        ({
            let (after, found) = fitted(atlas, max_atlas_size, width, height);
            &&& atlas.reserved(width, height) is Some ==> after.side == atlas.side && found is Some
            &&& after.side == atlas.side || after.side >= 2 * atlas.side
            &&& after.side != atlas.side && max_atlas_size > 0 ==> after.side <= max_atlas_size
            &&& found is None ==> after.reserved(width, height) is None && {
                ||| after.side <= 0
                ||| 2 * after.side > u32::MAX
                ||| 2 * after.side * (2 * after.side * after.format.bytes()) > u32::MAX
                ||| max_atlas_size > 0 && 2 * after.side > max_atlas_size
            }
        }),
    decreases u32::MAX - atlas.side,
{
    if atlas.reserved(width, height) is None && may_grow(atlas, max_atlas_size) {
        law_atlas_grows_as_needed(atlas.grown(2 * atlas.side), max_atlas_size, width, height);
    }
}

/// A glyph is split over its cells exactly if it is at least a cell wide and
/// hangs out of its cells, to the left or to the right, by at least half a cell.
pub proof fn law_overhanging_glyph_is_split(
    offset_x: int,
    width: int,
    cells: int,
    cell_width: int,
)
    requires
        cells > 0,
    ensures
        needs_overlap_split(offset_x, width, 0, cell_width) == needs_overlap_split(
            offset_x,
            width,
            1,
            cell_width,
        ),
        ({
            let left = -offset_x;
            let right = offset_x + width - cells * cell_width;
            needs_overlap_split(offset_x, width, cells, cell_width) <==> cell_width > 0 && width
                >= cell_width && (left + left >= cell_width || right + right >= cell_width)
        }),
{
    assert(cells * cell_width == cell_width * cells) by (nonlinear_arith);
}

/// A grid that is reset has no glyphs and blank atlases, each a change; fonts, limits
/// and what is remembered of code points stay.
pub proof fn law_reset_drops_glyphs(grid: GridModel)
    ensures
        grid.reset().glyphs.dom().is_empty(),
        grid.reset().grayscale == grid.grayscale.cleared(),
        grid.reset().color == grid.color.cleared(),
        grid.reset().codepoints == grid.codepoints,
        grid.reset().resolver == grid.resolver,
        grid.reset().metrics == grid.metrics,
        grid.reset().max_atlas_size == grid.max_atlas_size,
        grid.reset().raster_cell_width == grid.raster_cell_width,
{
}

/// A glyph occupies as many cells as its key says, and one if that is left open.
pub proof fn law_cells_of_a_key(key: GlyphKey)
    ensures
        key.option_bits() % 4 > 0 ==> cells_of(key) == key.option_bits() % 4,
        key.option_bits() % 4 == 0 ==> cells_of(key) == 1,
{
}

/// The word of a lookup has the code point in its lower half, then two bits for the
/// variant and two for the presentation.
pub proof fn law_word_of_a_lookup(codepoint: u32, style: Style)
    ensures
        codepoint_key(codepoint, style, None) == codepoint + style.rank() * 0x1_0000_0000,
        codepoint_key(codepoint, style, Some(Presentation::Text)) == codepoint_key(
            codepoint,
            style,
            None,
        ) + 0x4_0000_0000,
        codepoint_key(codepoint, style, Some(Presentation::Emoji)) == codepoint_key(
            codepoint,
            style,
            None,
        ) + 0x8_0000_0000,
{
}

} // verus!
