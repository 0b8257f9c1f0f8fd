//! The font faces in use, by style variant, and what is known of them.
//!
//! A face is named by a handle. Which glyph a face has for a code point and
//! whether a glyph is coloured is told from outside and remembered here. A
//! query that needs something that was not told yet answers with what that is.
use crate::font::types::{FontIndex, Presentation, Style};
use crate::rapid::{map_get, map_insert, map_with_capacity};
use rapidhash::RapidHashMap;
use vstd::prelude::*;

verus! {

/// Something about fonts that a query needs and that was not told yet.
#[derive(Clone, Copy, Debug, PartialEq, Eq, Structural)]
pub enum FontNeed {
    /// The font for a code point, which the grid has not looked up yet.
    Index { codepoint: u32, style: Style, presentation: Option<Presentation> },
    /// The glyph of a face for a code point, 0 if it has none.
    Glyph { index: FontIndex, codepoint: u32 },
    /// Whether a glyph of a face is coloured.
    Color { index: FontIndex, glyph: u16 },
    /// The face that the system falls back to for a code point.
    Fallback { codepoint: u32 },
}

/// A style bucket holds as many faces as an index can name.
#[derive(Clone, Copy, Debug, PartialEq, Eq, Structural)]
pub struct CollectionFullError;

/// What is known of a face.
#[verifier::ext_equal]
pub struct FaceModel {
    /// The face's handle.
    pub handle: u64,
    /// Glyph by code point, 0 where the face has none.
    pub glyphs: Map<u64, u16>,
    /// Whether a glyph is coloured, by glyph.
    pub colors: Map<u64, bool>,
}

/// A face and what is known of it.
pub struct FaceEntry {
    handle: u64,
    glyphs: RapidHashMap<u64, u16>,
    color_glyph_cache: RapidHashMap<u64, bool>,
}

impl View for FaceEntry {
    type V = FaceModel;

    closed spec fn view(&self) -> FaceModel {
        FaceModel {
            handle: self.handle,
            glyphs: self.glyphs@,
            colors: self.color_glyph_cache@,
        }
    }
}

/// Whether a face has a glyph for a code point, in the presentation asked
/// for if any is.
pub open spec fn face_supports(
    face: FaceModel,
    index: FontIndex,
    codepoint: u32,
    presentation: Option<Presentation>,
) -> Result<bool, FontNeed> {
    if !face.glyphs.contains_key(codepoint as u64) {
        Err(FontNeed::Glyph { index, codepoint })
    } else {
        let glyph = face.glyphs[codepoint as u64];
        if glyph == 0 {
            Ok(false)
        } else {
            match presentation {
                None => Ok(true),
                Some(wanted) => if !face.colors.contains_key(glyph as u64) {
                    Err(FontNeed::Color { index, glyph })
                } else {
                    Ok((wanted is Emoji) == face.colors[glyph as u64])
                },
            }
        }
    }
}

impl FaceEntry {
    fn new(handle: u64) -> (entry: FaceEntry)
        ensures
            entry@ == (FaceModel { handle, glyphs: Map::empty(), colors: Map::empty() }),
    {
        FaceEntry {
            handle,
            glyphs: map_with_capacity(64),
            color_glyph_cache: map_with_capacity(64),
        }
    }

    fn query_has_codepoint(
        &self,
        index: FontIndex,
        codepoint: u32,
        presentation: Option<Presentation>,
    ) -> (supports: Result<bool, FontNeed>)
        ensures
            supports == face_supports(self@, index, codepoint, presentation),
    {
        let glyph: u16 = match map_get(&self.glyphs, codepoint as u64) {
            Some(glyph) => *glyph,
            None => {
                return Err(FontNeed::Glyph { index, codepoint });
            },
        };
        if glyph == 0 {
            return Ok(false);
        }
        match presentation {
            None => Ok(true),
            Some(wanted) => match map_get(&self.color_glyph_cache, glyph as u64) {
                Some(colored) => {
                    let emoji: bool = wanted == Presentation::Emoji;
                    Ok(emoji == *colored)
                },
                None => Err(FontNeed::Color { index, glyph }),
            },
        }
    }
}

/// The glyph image formats that mean colour: layers, SVG, PNG, JPEG, TIFF and
/// premultiplied pixels.
pub const COLOR_IMAGE_FORMATS: u32 = 0xfc;

/// Whether a glyph is coloured: it has an image in a coloured format, or, if
/// the system can tell, it is drawn in coloured layers, or else its font is a
/// colour font.
pub fn glyph_is_color(image_formats: u32, color_run: Option<bool>, is_color_font: bool) -> (colored:
    bool)
    ensures
        colored == if image_formats & COLOR_IMAGE_FORMATS != 0 {
            true
        } else {
            match color_run {
                Some(run) => run,
                None => is_color_font,
            }
        },
{
    if image_formats & COLOR_IMAGE_FORMATS != 0 {
        true
    } else {
        match color_run {
            Some(run) => run,
            None => is_color_font,
        }
    }
}

/// The faces of the four style variants.
pub struct Collection {
    normal: Vec<FaceEntry>,
    bold: Vec<FaceEntry>,
    italic: Vec<FaceEntry>,
    bold_italic: Vec<FaceEntry>,
}

/// What is known of the faces of a variant.
pub open spec fn face_models(entries: Seq<FaceEntry>) -> Seq<FaceModel> {
    entries.map_values(|entry: FaceEntry| entry@)
}

/// What is known of the faces of every variant.
#[verifier::ext_equal]
pub struct CollectionModel {
    pub normal: Seq<FaceModel>,
    pub bold: Seq<FaceModel>,
    pub italic: Seq<FaceModel>,
    pub bold_italic: Seq<FaceModel>,
}

impl CollectionModel {
    /// The faces of a variant.
    pub open spec fn faces(self, style: Style) -> Seq<FaceModel> {
        match style {
            Style::Normal => self.normal,
            Style::Bold => self.bold,
            Style::Italic => self.italic,
            Style::BoldItalic => self.bold_italic,
        }
    }

    /// The collection with other faces for a variant.
    pub open spec fn with_faces(self, style: Style, faces: Seq<FaceModel>) -> CollectionModel {
        match style {
            Style::Normal => CollectionModel { normal: faces, ..self },
            Style::Bold => CollectionModel { bold: faces, ..self },
            Style::Italic => CollectionModel { italic: faces, ..self },
            Style::BoldItalic => CollectionModel { bold_italic: faces, ..self },
        }
    }

    /// Every face has an index.
    pub open spec fn wf(self) -> bool {
        &&& self.normal.len() <= 8192
        &&& self.bold.len() <= 8192
        &&& self.italic.len() <= 8192
        &&& self.bold_italic.len() <= 8192
    }

    /// Whether the face of an index supports a code point.
    pub open spec fn supports(
        self,
        index: FontIndex,
        codepoint: u32,
        presentation: Option<Presentation>,
    ) -> Result<bool, FontNeed> {
        let faces = self.faces(index.variant());
        if index.face() < faces.len() {
            face_supports(faces[index.face()], index, codepoint, presentation)
        } else {
            Ok(false)
        }
    }

    /// The first face of a variant, from face `i` on, that supports a code
    /// point.
    pub open spec fn lookup_from(
        self,
        codepoint: u32,
        style: Style,
        presentation: Option<Presentation>,
        i: int,
    ) -> Result<Option<FontIndex>, FontNeed>
        decreases self.faces(style).len() - i,
    {
        if i < 0 || i >= self.faces(style).len() {
            Ok(None)
        } else {
            let index = index_of(style, i);
            match face_supports(self.faces(style)[i], index, codepoint, presentation) {
                Ok(true) => Ok(Some(index)),
                Ok(false) => self.lookup_from(codepoint, style, presentation, i + 1),
                Err(need) => Err(need),
            }
        }
    }

    /// The first face of a variant that supports a code point.
    pub open spec fn lookup(
        self,
        codepoint: u32,
        style: Style,
        presentation: Option<Presentation>,
    ) -> Result<Option<FontIndex>, FontNeed> {
        self.lookup_from(codepoint, style, presentation, 0)
    }

    /// The place of the face with a handle among those of a variant, from
    /// face `i` on, or the number of faces.
    pub open spec fn place_of(self, style: Style, handle: u64, i: int) -> int
        decreases self.faces(style).len() - i,
    {
        if i < 0 || i >= self.faces(style).len() {
            self.faces(style).len() as int
        } else if self.faces(style)[i].handle == handle {
            i
        } else {
            self.place_of(style, handle, i + 1)
        }
    }

    /// The collection with a face, which is added unless it is there.
    pub open spec fn with_face(self, style: Style, handle: u64) -> CollectionModel {
        if self.place_of(style, handle, 0) < self.faces(style).len() || self.faces(style).len()
            >= 8192 {
            self
        } else {
            self.with_faces(
                style,
                self.faces(style).push(
                    FaceModel { handle, glyphs: Map::empty(), colors: Map::empty() },
                ),
            )
        }
    }

    /// The handle of the face of an index.
    pub open spec fn handle_at(self, index: FontIndex) -> Option<u64> {
        let faces = self.faces(index.variant());
        if index.face() < faces.len() {
            Some(faces[index.face()].handle)
        } else {
            None
        }
    }

    /// The collection after the glyph of a face for a code point was told.
    pub open spec fn told_glyph(self, index: FontIndex, codepoint: u32, glyph: u16) -> CollectionModel {
        let faces = self.faces(index.variant());
        let face = index.face();
        if face < faces.len() {
            self.with_faces(
                index.variant(),
                faces.update(
                    face,
                    FaceModel {
                        glyphs: faces[face].glyphs.insert(codepoint as u64, glyph),
                        ..faces[face]
                    },
                ),
            )
        } else {
            self
        }
    }

    /// The collection after the colour of a face's glyph was told.
    pub open spec fn told_color(self, index: FontIndex, glyph: u16, colored: bool) -> CollectionModel {
        let faces = self.faces(index.variant());
        let face = index.face();
        if face < faces.len() {
            self.with_faces(
                index.variant(),
                faces.update(
                    face,
                    FaceModel {
                        colors: faces[face].colors.insert(glyph as u64, colored),
                        ..faces[face]
                    },
                ),
            )
        } else {
            self
        }
    }

    /// The index of a face that is there or can be added.
    pub open spec fn index_for_face(self, style: Style, handle: u64) -> Option<FontIndex> {
        let at = self.place_of(style, handle, 0);
        if at < 8192 {
            Some(index_of(style, at))
        } else {
            None
        }
    }
}

/// The index of a face by its place among those of a variant.
pub open spec fn index_of(style: Style, face: int) -> FontIndex {
    FontIndex::packed((style.rank() * 8192 + face) as u16)
}

impl View for Collection {
    type V = CollectionModel;

    closed spec fn view(&self) -> CollectionModel {
        CollectionModel {
            normal: face_models(self.normal@),
            bold: face_models(self.bold@),
            italic: face_models(self.italic@),
            bold_italic: face_models(self.bold_italic@),
        }
    }
}

impl Collection {
    /// A collection without faces.
    pub fn new() -> (collection: Collection)
        ensures
            collection@.wf(),
            collection@ == (CollectionModel {
                normal: Seq::empty(),
                bold: Seq::empty(),
                italic: Seq::empty(),
                bold_italic: Seq::empty(),
            }),
    {
        let collection = Collection {
            normal: Vec::new(),
            bold: Vec::new(),
            italic: Vec::new(),
            bold_italic: Vec::new(),
        };
        assert(collection@ =~= CollectionModel {
            normal: Seq::empty(),
            bold: Seq::empty(),
            italic: Seq::empty(),
            bold_italic: Seq::empty(),
        });
        collection
    }

    fn entries(&self, style: Style) -> (entries: &Vec<FaceEntry>)
        ensures
            face_models(entries@) == self@.faces(style),
            entries@.len() == self@.faces(style).len(),
    {
        match style {
            Style::Normal => &self.normal,
            Style::Bold => &self.bold,
            Style::Italic => &self.italic,
            Style::BoldItalic => &self.bold_italic,
        }
    }

    fn entries_mut(&mut self, style: Style) -> (entries: &mut Vec<FaceEntry>)
        ensures
            face_models(entries@) == old(self)@.faces(style),
            final(self)@ == old(self)@.with_faces(style, face_models(final(entries)@)),
    {
        match style {
            Style::Normal => &mut self.normal,
            Style::Bold => &mut self.bold,
            Style::Italic => &mut self.italic,
            Style::BoldItalic => &mut self.bold_italic,
        }
    }

    /// The index of a face, which is added to its variant unless it is there.
    pub fn get_or_insert_dwrite_face(&mut self, style: Style, handle: u64) -> (index: Result<
        FontIndex,
        CollectionFullError,
    >)
        requires
            old(self)@.wf(),
        ensures
            final(self)@.wf(),
            final(self)@ == old(self)@.with_face(style, handle),
            index == match old(self)@.index_for_face(style, handle) {
                Some(index) => Ok::<FontIndex, CollectionFullError>(index),
                None => Err::<FontIndex, CollectionFullError>(CollectionFullError),
            },
    {
        let ghost before = self@;
        let len = self.entries(style).len();
        let mut i: usize = 0;
        while i < len
            invariant
                i <= len,
                self@ == before,
                before.wf(),
                len == before.faces(style).len(),
                *self == *old(self),
                before == old(self)@,
                before.place_of(style, handle, 0) == before.place_of(style, handle, i as int),
            decreases len - i,
        {
            let entries = self.entries(style);
            assert(face_models(entries@)[i as int] == entries@[i as int]@);
            if entries[i].handle == handle {
                assert(before.with_face(style, handle) =~= before);
                return Ok(FontIndex::new(style, i as u16));
            }
            i += 1;
        }
        if len >= 8192 {
            return Err(CollectionFullError);
        }
        let entry = FaceEntry::new(handle);
        let entries = self.entries_mut(style);
        let ghost list = entries@;
        entries.push(entry);
        assert(face_models(entries@) =~= face_models(list).push(
            FaceModel { handle, glyphs: Map::empty(), colors: Map::empty() },
        ));
        Ok(FontIndex::new(style, len as u16))
    }

    /// The first face of a variant that supports a code point.
    pub fn get_index(&self, codepoint: u32, style: Style, presentation: Option<Presentation>) -> (index:
        Result<Option<FontIndex>, FontNeed>)
        requires
            self@.wf(),
        ensures
            index == self@.lookup(codepoint, style, presentation),
            index matches Ok(Some(found)) ==> found.wf(),
    {
        let entries = self.entries(style);
        let mut i: usize = 0;
        while i < entries.len()
            invariant
                i <= entries@.len(),
                self@.wf(),
                face_models(entries@) == self@.faces(style),
                entries@.len() == self@.faces(style).len(),
                self@.lookup(codepoint, style, presentation) == self@.lookup_from(
                    codepoint,
                    style,
                    presentation,
                    i as int,
                ),
            decreases entries@.len() - i,
        {
            let index = FontIndex::new(style, i as u16);
            assert(face_models(entries@)[i as int] == entries@[i as int]@);
            match entries[i].query_has_codepoint(index, codepoint, presentation) {
                Ok(supported) => {
                    if supported {
                        return Ok(Some(index));
                    }
                },
                Err(need) => {
                    return Err(need);
                },
            }
            i += 1;
        }
        Ok(None)
    }

    /// Whether the face of an index supports a code point, in the presentation
    /// asked for if any is.
    pub fn has_codepoint(
        &self,
        index: FontIndex,
        codepoint: u32,
        presentation: Option<Presentation>,
    ) -> (supports: Result<bool, FontNeed>)
        requires
            index.wf(),
        ensures
            supports == self@.supports(index, codepoint, presentation),
    {
        let entries = self.entries(index.style());
        let face = index.index() as usize;
        if face < entries.len() {
            assert(face_models(entries@)[face as int] == entries@[face as int]@);
            entries[face].query_has_codepoint(index, codepoint, presentation)
        } else {
            Ok(false)
        }
    }

    /// The handle of the face of an index.
    pub fn face_for_index(&self, index: FontIndex) -> (handle: Option<u64>)
        requires
            index.wf(),
        ensures
            handle == self@.handle_at(index),
    {
        let entries = self.entries(index.style());
        let face = index.index() as usize;
        if face < entries.len() {
            assert(face_models(entries@)[face as int] == entries@[face as int]@);
            Some(entries[face].handle)
        } else {
            None
        }
    }

    /// Tells the glyph that the face of an index has for a code point, 0 for
    /// none. Nothing happens if there is no such face.
    pub fn tell_glyph(&mut self, index: FontIndex, codepoint: u32, glyph: u16)
        requires
            index.wf(),
            old(self)@.wf(),
        ensures
            final(self)@.wf(),
            final(self)@ == old(self)@.told_glyph(index, codepoint, glyph),
    {
        let style = index.style();
        let face = index.index() as usize;
        if face < self.entries(style).len() {
            let entries = self.entries_mut(style);
            let ghost list = entries@;
            let _ = map_insert(&mut entries[face].glyphs, codepoint as u64, glyph);
            assert(face_models(entries@) =~= face_models(list).update(
                face as int,
                FaceModel {
                    glyphs: list[face as int]@.glyphs.insert(codepoint as u64, glyph),
                    ..list[face as int]@
                },
            ));
        }
    }

    /// Tells whether a glyph of the face of an index is coloured. Nothing
    /// happens if there is no such face.
    pub fn tell_color(&mut self, index: FontIndex, glyph: u16, colored: bool)
        requires
            index.wf(),
            old(self)@.wf(),
        ensures
            final(self)@.wf(),
            final(self)@ == old(self)@.told_color(index, glyph, colored),
    {
        let style = index.style();
        let face = index.index() as usize;
        if face < self.entries(style).len() {
            let entries = self.entries_mut(style);
            let ghost list = entries@;
            let _ = map_insert(&mut entries[face].color_glyph_cache, glyph as u64, colored);
            assert(face_models(entries@) =~= face_models(list).update(
                face as int,
                FaceModel {
                    colors: list[face as int]@.colors.insert(glyph as u64, colored),
                    ..list[face as int]@
                },
            ));
        }
    }
}

impl Default for Collection {
    fn default() -> (collection: Collection)
        ensures
            collection@.wf(),
            collection@ == (CollectionModel {
                normal: Seq::empty(),
                bold: Seq::empty(),
                italic: Seq::empty(),
                bold_italic: Seq::empty(),
            }),
    {
        Collection::new()
    }
}

proof fn lemma_place_of(collection: CollectionModel, style: Style, handle: u64, i: int)
    requires
        0 <= i <= collection.faces(style).len(),
    ensures
        ({
            let at = collection.place_of(style, handle, i);
            let faces = collection.faces(style);
            &&& i <= at <= faces.len()
            &&& at < faces.len() ==> faces[at].handle == handle
            &&& forall|j: int| i <= j < at ==> (#[trigger] faces[j]).handle != handle
        }),
    decreases collection.faces(style).len() - i,
{
    if i < collection.faces(style).len() && collection.faces(style)[i].handle != handle {
        lemma_place_of(collection, style, handle, i + 1);
    }
}

proof fn lemma_place_is(
    collection: CollectionModel,
    style: Style,
    handle: u64,
    i: int,
    at: int,
)
    requires
        0 <= i <= at < collection.faces(style).len(),
        collection.faces(style)[at].handle == handle,
        forall|j: int| i <= j < at ==> (#[trigger] collection.faces(style)[j]).handle != handle,
    ensures
        collection.place_of(style, handle, i) == at,
    decreases at - i,
{
    if i < at {
        lemma_place_is(collection, style, handle, i + 1, at);
    }
}

/// A face that finds no place leaves the collection as it is.
pub proof fn law_refused_face_changes_nothing(
    collection: CollectionModel,
    style: Style,
    handle: u64,
)
    requires
        collection.wf(),
        collection.index_for_face(style, handle) is None,
    ensures
        collection.with_face(style, handle) == collection,
{
    lemma_place_of(collection, style, handle, 0);
}

/// A face that was added is found under the index it was given, and adding it
/// again changes nothing.
pub proof fn law_face_keeps_its_index(collection: CollectionModel, style: Style, handle: u64)
    requires
        collection.wf(),
        collection.index_for_face(style, handle) is Some,
    ensures
        ({
            let index = collection.index_for_face(style, handle).unwrap();
            let after = collection.with_face(style, handle);
            &&& after.index_for_face(style, handle) == Some(index)
            &&& after.with_face(style, handle) == after
            &&& index.variant() == style
            &&& after.handle_at(index) == Some(handle)
        }),
{
    let after = collection.with_face(style, handle);
    let at = collection.place_of(style, handle, 0);
    lemma_place_of(collection, style, handle, 0);
    lemma_place_is(after, style, handle, 0, at);
    let index = index_of(style, at);
    crate::font::types::lemma_packed_parts(style, at);
}

/// Once the glyph of a face for a code point was told, whether the face has
/// the code point is known.
pub proof fn law_told_glyph_is_known(
    collection: CollectionModel,
    index: FontIndex,
    codepoint: u32,
    glyph: u16,
)
    requires
        index.face() < collection.faces(index.variant()).len(),
    ensures
        collection.told_glyph(index, codepoint, glyph).supports(index, codepoint, None) == Ok::<
            bool,
            FontNeed,
        >(glyph != 0),
{
}

/// A face has a code point if its glyph for it is not 0; as an emoji if that glyph is
/// colored, and as text if it is not. What was not told has to be asked for: first
/// the glyph, then its color.
pub proof fn law_what_a_face_supports(
    collection: CollectionModel,
    index: FontIndex,
    codepoint: u32,
    wanted: Presentation,
)
    requires
        index.face() < collection.faces(index.variant()).len(),
    ensures
        ({
            let face = collection.faces(index.variant())[index.face()];
            let told = face.glyphs.contains_key(codepoint as u64);
            let glyph = face.glyphs[codepoint as u64];
            let seen = face.colors.contains_key(glyph as u64);
            let colored = face.colors[glyph as u64];
            let any = collection.supports(index, codepoint, None);
            let one = collection.supports(index, codepoint, Some(wanted));
            &&& !told ==> any == Err::<bool, FontNeed>(FontNeed::Glyph { index, codepoint }) && one
                == any
            &&& told && glyph == 0 ==> any == Ok::<bool, FontNeed>(false) && one == any
            &&& told && glyph > 0 ==> any == Ok::<bool, FontNeed>(true)
            &&& told && glyph > 0 && !seen ==> one == Err::<bool, FontNeed>(
                FontNeed::Color { index, glyph },
            )
            &&& told && glyph > 0 && seen && colored ==> one == Ok::<bool, FontNeed>(
                wanted is Emoji,
            )
            &&& told && glyph > 0 && seen && !colored ==> one == Ok::<bool, FontNeed>(
                wanted is Text,
            )
        }),
{
}

/// What is told of a face is kept with it and changes nothing else.
pub proof fn law_told_of_one_face(
    collection: CollectionModel,
    index: FontIndex,
    codepoint: u32,
    glyph: u16,
    colored: bool,
    style: Style,
    i: int,
)
    requires
        index.face() < collection.faces(index.variant()).len(),
        0 <= i < collection.faces(style).len(),
    ensures
        ({
            let before = collection.faces(style)[i];
            let glyphs = collection.told_glyph(index, codepoint, glyph).faces(style);
            let colors = collection.told_color(index, glyph, colored).faces(style);
            let same = style == index.variant() && i == index.face();
            &&& glyphs.len() == collection.faces(style).len()
            &&& colors.len() == collection.faces(style).len()
            &&& !same ==> glyphs[i] == before && colors[i] == before
            &&& same ==> {
                &&& glyphs[i].handle == before.handle && colors[i].handle == before.handle
                &&& glyphs[i].glyphs == before.glyphs.insert(codepoint as u64, glyph)
                &&& glyphs[i].colors == before.colors
                &&& colors[i].glyphs == before.glyphs
                &&& colors[i].colors == before.colors.insert(glyph as u64, colored)
            }
        }),
{
}

/// The face that is found is the first of its variant that supports the code point;
/// what is asked for is about the first face of which too little is known.
pub proof fn law_first_supporting_face(
    collection: CollectionModel,
    codepoint: u32,
    style: Style,
    presentation: Option<Presentation>,
    from: int,
)
    requires
        collection.wf(),
        0 <= from <= collection.faces(style).len(),
    ensures
        ({
            let count = collection.faces(style).len();
            let said = |i: int, answer: Result<bool, FontNeed>|
                exists|index: FontIndex|
                    #![trigger index.face()]
                    index.wf() && index.variant() == style && index.face() == i
                        && collection.supports(index, codepoint, presentation) == answer;
            match collection.lookup_from(codepoint, style, presentation, from) {
                Ok(Some(found)) => {
                    &&& found.wf()
                    &&& found.variant() == style
                    &&& from <= found.face() < count
                    &&& collection.supports(found, codepoint, presentation) == Ok::<bool, FontNeed>(
                        true,
                    )
                    &&& forall|i: int|
                        from <= i < found.face() ==> #[trigger] said(i, Ok(false))
                },
                Ok(None) => forall|i: int| from <= i < count ==> #[trigger] said(i, Ok(false)),
                Err(need) => exists|k: int|
                    from <= k < count && #[trigger] said(k, Err(need)) && (forall|i: int|
                        from <= i < k ==> #[trigger] said(i, Ok(false))),
            }
        }),
    decreases collection.faces(style).len() - from,
{
    let count = collection.faces(style).len();
    let said = |i: int, answer: Result<bool, FontNeed>|
        exists|index: FontIndex|
            #![trigger index.face()]
            index.wf() && index.variant() == style && index.face() == i && collection.supports(
                index,
                codepoint,
                presentation,
            ) == answer;
    if from < count {
        let index = index_of(style, from);
        crate::font::types::lemma_packed_parts(style, from);
        let answer = collection.supports(index, codepoint, presentation);
        assert(said(from, answer)) by {
            assert(index.face() == from);
        }
        if answer == Ok::<bool, FontNeed>(false) {
            law_first_supporting_face(collection, codepoint, style, presentation, from + 1);
            match collection.lookup_from(codepoint, style, presentation, from + 1) {
                Ok(Some(found)) => {
                    assert forall|i: int| from <= i < found.face() implies #[trigger] said(
                        i,
                        Ok(false),
                    ) by {
                        if i > from {
                            assert(from + 1 <= i < found.face());
                        }
                    }
                },
                Ok(None) => {
                    assert forall|i: int| from <= i < count implies #[trigger] said(i, Ok(false)) by {
                        if i > from {
                            assert(from + 1 <= i < count);
                        }
                    }
                },
                Err(need) => {
                    let k = choose|k: int|
                        from + 1 <= k < count && #[trigger] said(k, Err(need)) && (forall|i: int|
                            from + 1 <= i < k ==> #[trigger] said(i, Ok(false)));
                    assert(said(k, Err(need)));
                    assert forall|i: int| from <= i < k implies #[trigger] said(i, Ok(false)) by {
                        if i > from {
                            assert(from + 1 <= i < k);
                        }
                    }
                },
            }
        }
    }
}

/// The formats of colored glyphs are COLR, SVG, PNG, JPEG, TIFF and raw pixels.
pub proof fn law_color_formats()
    ensures
        COLOR_IMAGE_FORMATS == 4 + 8 + 16 + 32 + 64 + 128,
{
}

/// An index of no face supports nothing and has no handle, and nothing can be told of
/// it. An index of a face has the handle of that face.
pub proof fn law_index_of_no_face(
    collection: CollectionModel,
    index: FontIndex,
    codepoint: u32,
    presentation: Option<Presentation>,
    glyph: u16,
    colored: bool,
)
    ensures
        index.face() >= collection.faces(index.variant()).len() ==> {
            &&& collection.supports(index, codepoint, presentation) == Ok::<bool, FontNeed>(false)
            &&& collection.handle_at(index) is None
            &&& collection.told_glyph(index, codepoint, glyph) == collection
            &&& collection.told_color(index, glyph, colored) == collection
        },
        index.face() < collection.faces(index.variant()).len() ==> collection.handle_at(index)
            == Some(collection.faces(index.variant())[index.face()].handle),
{
}

} // verus!
