//! Position-independent glyph cache.
//!
//! Maps a [`GlyphKey`] to atlas coordinates and glyph metrics. The key holds
//! the font, the glyph and the render options in one word and leaves out the
//! position: that is applied when drawing.
use crate::font::types::FontIndex;
use crate::rapid::{map_get, map_insert, map_len, map_with_capacity};
use rapidhash::RapidHashMap;
use vstd::prelude::*;

verus! {

/// Which atlas a glyph was rasterized into.
#[derive(Clone, Copy, Debug, PartialEq, Eq, Structural)]
pub enum GlyphAtlasKind {
    /// Grayscale atlas for text glyphs.
    Grayscale,
    /// Colour atlas for colour glyphs.
    Color,
}

/// Render options that affect how a glyph is rasterized, packed into sixteen
/// bits: from the lowest, two for the cell width, one for thickening, eight
/// for its strength and two for the constraint width. Three are left over.
#[derive(Clone, Copy, Debug, PartialEq, Eq, Hash, Structural)]
pub struct GlyphRenderOptions(u16);

/// Fields within their widths can be read back from the value that they are
/// packed into.
proof fn lemma_unpack(bits: int, width: int, thicken: int, strength: int, fitted: int, spare: int)
    requires
        0 <= width < 4,
        0 <= thicken < 2,
        0 <= strength < 256,
        0 <= fitted < 4,
        0 <= spare,
        bits == width + 4 * thicken + 8 * strength + 2048 * fitted + 8192 * spare,
    ensures
        bits % 4 == width,
        (bits / 4) % 2 == thicken,
        (bits / 8) % 256 == strength,
        (bits / 2048) % 4 == fitted,
        bits / 8192 == spare,
{
    assert(bits / 4 == thicken + 2 * (strength + 256 * (fitted + 4 * spare)));
    assert(bits / 8 == strength + 256 * (fitted + 4 * spare));
    assert(bits / 2048 == fitted + 4 * spare);
}

/// A value is packed from the fields that are read from it.
proof fn lemma_pack(bits: int)
    requires
        0 <= bits,
    ensures
        bits == bits % 4 + 4 * ((bits / 4) % 2) + 8 * ((bits / 8) % 256) + 2048 * ((bits / 2048)
            % 4) + 8192 * (bits / 8192),
{
    assert(bits == bits % 4 + 4 * (bits / 4));
    assert(bits / 4 == (bits / 4) % 2 + 2 * (bits / 8));
    assert(bits / 8 == (bits / 8) % 256 + 256 * (bits / 2048));
    assert(bits / 2048 == (bits / 2048) % 4 + 4 * (bits / 8192));
}

impl GlyphRenderOptions {
    /// The packed value.
    pub closed spec fn bits(self) -> int {
        self.0 as int
    }

    pub open spec fn cell_width_bits(self) -> int {
        self.bits() % 4
    }

    pub open spec fn thicken_bit(self) -> int {
        (self.bits() / 4) % 2
    }

    pub open spec fn strength_bits(self) -> int {
        (self.bits() / 8) % 256
    }

    pub open spec fn constraint_bits(self) -> int {
        (self.bits() / 2048) % 4
    }

    pub open spec fn spare_bits(self) -> int {
        self.bits() / 8192
    }

    /// Number of grid cells that the glyph occupies, 0 if unset.
    pub fn cell_width(self) -> (width: u8)
        ensures
            width == self.cell_width_bits(),
    {
        (self.0 % 4) as u8
    }

    /// Whether the glyph is thickened.
    pub fn thicken(self) -> (thicken: bool)
        ensures
            thicken == (self.thicken_bit() == 1),
    {
        (self.0 / 4) % 2 != 0
    }

    /// How strongly the glyph is thickened.
    pub fn thicken_strength(self) -> (strength: u8)
        ensures
            strength == self.strength_bits(),
    {
        ((self.0 / 8) % 256) as u8
    }

    /// The width in cells that the glyph is fitted to.
    pub fn constraint_width(self) -> (width: u8)
        ensures
            width == self.constraint_bits(),
    {
        ((self.0 / 2048) % 4) as u8
    }

    pub fn with_cell_width(self, cell_width: u8) -> (options: GlyphRenderOptions)
        requires
            cell_width <= 3,
        ensures
            options.cell_width_bits() == cell_width,
            options.thicken_bit() == self.thicken_bit(),
            options.strength_bits() == self.strength_bits(),
            options.constraint_bits() == self.constraint_bits(),
            options.spare_bits() == self.spare_bits(),
    {
        proof {
            let r = self.bits();
            lemma_pack(r);
            lemma_unpack(
                r / 4 * 4 + cell_width,
                cell_width as int,
                self.thicken_bit(),
                self.strength_bits(),
                self.constraint_bits(),
                self.spare_bits(),
            );
        }
        GlyphRenderOptions(self.0 / 4 * 4 + cell_width as u16)
    }

    pub fn with_thicken(self, thicken: bool) -> (options: GlyphRenderOptions)
        ensures
            options.cell_width_bits() == self.cell_width_bits(),
            options.thicken_bit() == if thicken {
                1int
            } else {
                0int
            },
            options.strength_bits() == self.strength_bits(),
            options.constraint_bits() == self.constraint_bits(),
            options.spare_bits() == self.spare_bits(),
    {
        let bit: u16 = if thicken {
            4
        } else {
            0
        };
        proof {
            let r = self.bits();
            lemma_pack(r);
            lemma_unpack(
                r / 8 * 8 + bit + r % 4,
                self.cell_width_bits(),
                bit as int / 4,
                self.strength_bits(),
                self.constraint_bits(),
                self.spare_bits(),
            );
        }
        GlyphRenderOptions(self.0 / 8 * 8 + bit + self.0 % 4)
    }

    pub fn with_thicken_strength(self, thicken_strength: u8) -> (options: GlyphRenderOptions)
        ensures
            options.cell_width_bits() == self.cell_width_bits(),
            options.thicken_bit() == self.thicken_bit(),
            options.strength_bits() == thicken_strength,
            options.constraint_bits() == self.constraint_bits(),
            options.spare_bits() == self.spare_bits(),
    {
        proof {
            let r = self.bits();
            lemma_pack(r);
            assert(r % 8 == r % 4 + 4 * ((r / 4) % 2));
            lemma_unpack(
                r / 2048 * 2048 + thicken_strength * 8 + r % 8,
                self.cell_width_bits(),
                self.thicken_bit(),
                thicken_strength as int,
                self.constraint_bits(),
                self.spare_bits(),
            );
        }
        GlyphRenderOptions(self.0 / 2048 * 2048 + thicken_strength as u16 * 8 + self.0 % 8)
    }

    pub fn with_constraint_width(self, constraint_width: u8) -> (options: GlyphRenderOptions)
        requires
            constraint_width <= 3,
        ensures
            options.cell_width_bits() == self.cell_width_bits(),
            options.thicken_bit() == self.thicken_bit(),
            options.strength_bits() == self.strength_bits(),
            options.constraint_bits() == constraint_width,
            options.spare_bits() == self.spare_bits(),
    {
        proof {
            let r = self.bits();
            lemma_pack(r);
            assert(r % 2048 == r % 4 + 4 * ((r / 4) % 2) + 8 * ((r / 8) % 256)) by {
                assert(r == r / 2048 * 2048 + r % 2048);
            }
            lemma_unpack(
                r / 8192 * 8192 + constraint_width * 2048 + r % 2048,
                self.cell_width_bits(),
                self.thicken_bit(),
                self.strength_bits(),
                constraint_width as int,
                self.spare_bits(),
            );
        }
        GlyphRenderOptions(self.0 / 8192 * 8192 + constraint_width as u16 * 2048 + self.0 % 2048)
    }

    /// The packed value.
    pub fn pack(self) -> (bits: u16)
        ensures
            bits == self.bits(),
    {
        self.0
    }
}

impl Default for GlyphRenderOptions {
    /// No cell width, not thickened, full strength, fitted to one cell.
    fn default() -> (options: GlyphRenderOptions)
        ensures
            options.cell_width_bits() == 0,
            options.thicken_bit() == 0,
            options.strength_bits() == 255,
            options.constraint_bits() == 1,
            options.spare_bits() == 0,
    {
        GlyphRenderOptions(0).with_cell_width(0).with_thicken(false).with_thicken_strength(
            255,
        ).with_constraint_width(1)
    }
}

/// The packed value is made of its fields, so options with the same fields are
/// the same.
pub proof fn law_render_options_are_their_fields(a: GlyphRenderOptions, b: GlyphRenderOptions)
    requires
        a.cell_width_bits() == b.cell_width_bits(),
        a.thicken_bit() == b.thicken_bit(),
        a.strength_bits() == b.strength_bits(),
        a.constraint_bits() == b.constraint_bits(),
        a.spare_bits() == b.spare_bits(),
    ensures
        a == b,
{
    lemma_pack(a.bits());
    lemma_pack(b.bits());
}

/// Glyph cache key in one word: the font index in the lowest sixteen bits,
/// the glyph index in the next thirty-two, the render options in the rest.
#[derive(Clone, Copy, Debug, PartialEq, Eq, Hash, Structural)]
pub struct GlyphKey {
    packed: u64,
}

impl GlyphKey {
    /// The packed value.
    pub closed spec fn word(self) -> u64 {
        self.packed
    }

    pub open spec fn font_bits(self) -> int {
        self.word() as int % 0x1_0000
    }

    pub open spec fn glyph_bits(self) -> int {
        (self.word() as int / 0x1_0000) % 0x1_0000_0000
    }

    pub open spec fn option_bits(self) -> int {
        self.word() as int / 0x1_0000_0000_0000
    }

    /// Packs a key.
    pub fn new(font_index: FontIndex, glyph_index: u32, options: GlyphRenderOptions) -> (key: GlyphKey)
        ensures
            key.font_bits() == font_index.raw(),
            key.glyph_bits() == glyph_index,
            key.option_bits() == options.bits(),
    {
        let font: u64 = font_index.to_u16() as u64;
        let glyph: u64 = glyph_index as u64;
        let opts: u64 = options.pack() as u64;
        let packed: u64 = font + glyph * 0x1_0000 + opts * 0x1_0000_0000_0000;
        assert(packed as int / 0x1_0000 == glyph + opts * 0x1_0000_0000);
        GlyphKey { packed }
    }

    /// The font index.
    pub fn font_index(self) -> (font_index: FontIndex)
        ensures
            font_index.raw() == self.font_bits(),
            font_index == FontIndex::packed(self.font_bits() as u16),
    {
        FontIndex::from_u16((self.packed % 0x1_0000) as u16)
    }

    /// The glyph index.
    pub fn glyph_index(self) -> (glyph_index: u32)
        ensures
            glyph_index == self.glyph_bits(),
    {
        ((self.packed / 0x1_0000) % 0x1_0000_0000) as u32
    }

    /// The packed render options.
    pub fn packed_options(self) -> (options: u16)
        ensures
            options == self.option_bits(),
    {
        (self.packed / 0x1_0000_0000_0000) as u16
    }
}

/// Keys of different fonts, glyphs or options are different words.
pub proof fn law_glyph_key_is_its_parts(a: GlyphKey, b: GlyphKey)
    requires
        a.font_bits() == b.font_bits(),
        a.glyph_bits() == b.glyph_bits(),
        a.option_bits() == b.option_bits(),
    ensures
        a.word() == b.word(),
        a == b,
{
    lemma_word_of_parts(a);
    lemma_word_of_parts(b);
}

proof fn lemma_word_of_parts(key: GlyphKey)
    ensures
        key.word() == key.font_bits() + key.glyph_bits() * 0x1_0000 + key.option_bits()
            * 0x1_0000_0000_0000,
{
    let w = key.word() as int;
    let upper = w / 0x1_0000;
    assert(w == upper * 0x1_0000 + w % 0x1_0000);
    assert(upper == (upper / 0x1_0000_0000) * 0x1_0000_0000 + upper % 0x1_0000_0000);
    assert(upper / 0x1_0000_0000 == w / 0x1_0000_0000_0000);
}

/// A rasterized glyph: its place in an atlas and what is needed to draw it.
#[derive(Clone, Copy, Debug, PartialEq, Eq, Structural)]
pub struct CachedGlyph {
    /// Width in pixels.
    pub width: u32,
    /// Height in pixels.
    pub height: u32,
    /// Horizontal offset from the pen position.
    pub offset_x: i32,
    /// Vertical offset from the baseline.
    pub offset_y: i32,
    /// Left edge in the atlas.
    pub atlas_x: u32,
    /// Top edge in the atlas.
    pub atlas_y: u32,
    /// The atlas that the glyph lives in.
    pub atlas_kind: Option<GlyphAtlasKind>,
    /// Whether the glyph has to be drawn cell by cell, so that each cell's
    /// part of it takes that cell's colour.
    pub overlap_split: bool,
}

impl CachedGlyph {
    /// A glyph without pixels.
    pub open spec fn blank() -> CachedGlyph {
        CachedGlyph {
            width: 0,
            height: 0,
            offset_x: 0,
            offset_y: 0,
            atlas_x: 0,
            atlas_y: 0,
            atlas_kind: None,
            overlap_split: false,
        }
    }
}

impl Default for CachedGlyph {
    fn default() -> (glyph: CachedGlyph)
        ensures
            glyph == CachedGlyph::blank(),
    {
        CachedGlyph {
            width: 0,
            height: 0,
            offset_x: 0,
            offset_y: 0,
            atlas_x: 0,
            atlas_y: 0,
            atlas_kind: None,
            overlap_split: false,
        }
    }
}

/// Glyphs by key.
pub struct GlyphCache {
    map: RapidHashMap<u64, CachedGlyph>,
}

impl View for GlyphCache {
    type V = Map<u64, CachedGlyph>;

    /// The glyphs by the word of their key.
    closed spec fn view(&self) -> Map<u64, CachedGlyph> {
        self.map@
    }
}

impl GlyphCache {
    /// An empty cache.
    pub fn new() -> (cache: GlyphCache)
        ensures
            cache@ == Map::<u64, CachedGlyph>::empty(),
    {
        GlyphCache { map: map_with_capacity(128) }
    }

    /// The glyph of a key, if it was rasterized.
    pub fn get(&self, key: &GlyphKey) -> (glyph: Option<&CachedGlyph>)
        ensures
            match glyph {
                Some(glyph) => self@.contains_key(key.word()) && *glyph == self@[key.word()],
                None => !self@.contains_key(key.word()),
            },
    {
        map_get(&self.map, key.packed)
    }

    /// Stores a glyph, over what the key had, and gives a reference to it.
    pub fn insert(&mut self, key: GlyphKey, glyph: CachedGlyph) -> (stored: &CachedGlyph)
        ensures
            final(self)@ == old(self)@.insert(key.word(), glyph),
            *stored == glyph,
    {
        let _ = map_insert(&mut self.map, key.packed, glyph);
        map_get(&self.map, key.packed).unwrap()
    }

    /// Stores a glyph unless the key has one, and gives the glyph that the key
    /// has in the end.
    pub fn insert_or_get_existing(&mut self, key: GlyphKey, glyph: CachedGlyph) -> (kept: CachedGlyph)
        ensures
            old(self)@.contains_key(key.word()) ==> final(self)@ == old(self)@ && kept == old(self)@[key.word()],
            !old(self)@.contains_key(key.word()) ==> final(self)@ == old(self)@.insert(
                key.word(),
                glyph,
            ) && kept == glyph,
    {
        if let Some(found) = map_get(&self.map, key.packed) {
            return *found;
        }
        let _ = map_insert(&mut self.map, key.packed, glyph);
        glyph
    }

    /// The glyph of a key, which `rasterize` makes if the cache lacks it. If
    /// that fails the cache stays as it is.
    pub fn get_or_insert_with<F, E>(&mut self, key: GlyphKey, rasterize: F) -> (glyph: Result<
        &CachedGlyph,
        E,
    >) where F: FnOnce(&GlyphKey) -> Result<CachedGlyph, E>
        requires
            rasterize.requires((&key,)),
        ensures
            old(self)@.contains_key(key.word()) ==> final(self)@ == old(self)@ && (glyph matches Ok(
                stored,
            ) && *stored == old(self)@[key.word()]),
            !old(self)@.contains_key(key.word()) ==> match glyph {
                Ok(stored) => {
                    &&& rasterize.ensures((&key,), Ok(*stored))
                    &&& final(self)@ == old(self)@.insert(key.word(), *stored)
                },
                Err(error) => {
                    &&& rasterize.ensures((&key,), Err(error))
                    &&& final(self)@ == old(self)@
                },
            },
    {
        let known: bool = map_get(&self.map, key.packed).is_some();
        if !known {
            match rasterize(&key) {
                Ok(fresh) => {
                    return Ok(self.insert(key, fresh));
                },
                Err(error) => {
                    return Err(error);
                },
            }
        }
        Ok(map_get(&self.map, key.packed).unwrap())
    }

    /// Drops all glyphs.
    pub fn clear(&mut self)
        ensures
            final(self)@ == Map::<u64, CachedGlyph>::empty(),
    {
        self.map.clear();
    }

    /// Number of cached glyphs.
    pub fn len(&self) -> (len: usize)
        ensures
            len == self@.len(),
    {
        map_len(&self.map)
    }

    pub fn is_empty(&self) -> (empty: bool)
        ensures
            empty == (self@.len() == 0),
    {
        map_len(&self.map) == 0
    }
}

impl Default for GlyphCache {
    fn default() -> (cache: GlyphCache)
        ensures
            cache@ == Map::<u64, CachedGlyph>::empty(),
    {
        GlyphCache::new()
    }
}

/// A key's word has the font in its lowest sixteen bits, the glyph in the next
/// thirty-two and the options in the rest.
pub proof fn law_word_of_a_key(key: GlyphKey)
    ensures
        key.word() == key.font_bits() + key.glyph_bits() * 0x1_0000 + key.option_bits()
            * 0x1_0000_0000_0000,
        0 <= key.font_bits() < 0x1_0000,
        0 <= key.glyph_bits() < 0x1_0000_0000,
{
    lemma_word_of_parts(key);
}

/// Packed options have the cell width in two bits, then a bit for thickening, eight
/// for its strength and two for the constraint width.
pub proof fn law_layout_of_render_options(options: GlyphRenderOptions)
    ensures
        options.bits() == options.cell_width_bits() + 4 * options.thicken_bit() + 8
            * options.strength_bits() + 2048 * options.constraint_bits() + 8192
            * options.spare_bits(),
        0 <= options.cell_width_bits() < 4,
        0 <= options.thicken_bit() < 2,
        0 <= options.strength_bits() < 256,
        0 <= options.constraint_bits() < 4,
{
    lemma_pack(options.bits());
}

/// A glyph without pixels takes no place and is in no atlas.
pub proof fn law_blank_glyph()
    ensures
        CachedGlyph::blank().width == 0,
        CachedGlyph::blank().height == 0,
        CachedGlyph::blank().offset_x == 0,
        CachedGlyph::blank().offset_y == 0,
        CachedGlyph::blank().atlas_x == 0,
        CachedGlyph::blank().atlas_y == 0,
        CachedGlyph::blank().atlas_kind is None,
        !CachedGlyph::blank().overlap_split,
{
}

} // verus!
