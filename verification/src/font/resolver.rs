//! Which font shows a code point.
use crate::emoji::{codepoint_default_emoji_presentation, default_emoji};
use crate::font::collection::{Collection, CollectionModel, FontNeed};
use crate::font::types::{FontIndex, Presentation, Style};
use crate::rapid::{map_get, map_insert, map_with_capacity};
use crate::text::is_scalar;
use rapidhash::RapidHashMap;
use vstd::prelude::*;

verus! {

/// Which style variants may be used, one bit each.
#[derive(Clone, Copy, Debug, PartialEq, Eq, Structural)]
pub struct StyleStatus(u8);

/// Four bits and the rest, packed into a number, can be read back from it.
proof fn lemma_four_bits(v: int, a: int, b: int, c: int, d: int, rest: int)
    requires
        0 <= a < 2,
        0 <= b < 2,
        0 <= c < 2,
        0 <= d < 2,
        0 <= rest,
        v == a + 2 * b + 4 * c + 8 * d + 16 * rest,
    ensures
        v % 2 == a,
        (v / 2) % 2 == b,
        (v / 4) % 2 == c,
        (v / 8) % 2 == d,
{
    assert(v / 2 == b + 2 * (c + 2 * (d + 2 * rest)));
    assert(v / 4 == c + 2 * (d + 2 * rest));
    assert(v / 8 == d + 2 * rest);
}

/// A number is packed from the four bits and the rest that are read from it.
proof fn lemma_from_four_bits(v: int)
    requires
        0 <= v,
    ensures
        v == v % 2 + 2 * ((v / 2) % 2) + 4 * ((v / 4) % 2) + 8 * ((v / 8) % 2) + 16 * (v / 16),
{
    assert(v / 2 == (v / 2) % 2 + 2 * (v / 4));
    assert(v / 4 == (v / 4) % 2 + 2 * (v / 8));
    assert(v / 8 == (v / 8) % 2 + 2 * (v / 16));
}

impl StyleStatus {
    /// Whether a variant is enabled.
    pub closed spec fn enabled(self, style: Style) -> bool {
        match style {
            Style::Normal => self.0 % 2 == 1,
            Style::Bold => (self.0 / 2) % 2 == 1,
            Style::Italic => (self.0 / 4) % 2 == 1,
            Style::BoldItalic => (self.0 / 8) % 2 == 1,
        }
    }

    /// All variants enabled or all disabled.
    pub fn init_fill(enabled: bool) -> (status: StyleStatus)
        ensures
            forall|style: Style| #[trigger] status.enabled(style) == enabled,
    {
        if enabled {
            StyleStatus(15)
        } else {
            StyleStatus(0)
        }
    }

    pub fn get(self, style: Style) -> (enabled: bool)
        ensures
            enabled == self.enabled(style),
    {
        match style {
            Style::Normal => self.0 % 2 == 1,
            Style::Bold => (self.0 / 2) % 2 == 1,
            Style::Italic => (self.0 / 4) % 2 == 1,
            Style::BoldItalic => (self.0 / 8) % 2 == 1,
        }
    }

    pub fn set(&mut self, style: Style, enabled: bool)
        ensures
            forall|other: Style| #[trigger]
                final(self).enabled(other) == if other == style {
                    enabled
                } else {
                    old(self).enabled(other)
                },
    {
        let weight: u8 = match style {
            Style::Normal => 1,
            Style::Bold => 2,
            Style::Italic => 4,
            Style::BoldItalic => 8,
        };
        let on: bool = self.get(style);
        let ghost v = self.0 as int;
        proof {
            lemma_from_four_bits(v);
        }
        if enabled && !on {
            self.0 = self.0 + weight;
        } else if !enabled && on {
            self.0 = self.0 - weight;
        }
        proof {
            let bit = if enabled {
                1int
            } else {
                0int
            };
            lemma_four_bits(
                self.0 as int,
                if style is Normal { bit } else { v % 2 },
                if style is Bold { bit } else { (v / 2) % 2 },
                if style is Italic { bit } else { (v / 4) % 2 },
                if style is BoldItalic { bit } else { (v / 8) % 2 },
                v / 16,
            );
        }
    }
}

/// The first answer unless it is that there is no font.
pub open spec fn first_of(
    a: Result<Option<FontIndex>, FontNeed>,
    b: Result<Option<FontIndex>, FontNeed>,
) -> Result<Option<FontIndex>, FontNeed> {
    if a == Ok::<Option<FontIndex>, FontNeed>(None) {
        b
    } else {
        a
    }
}

/// What a resolver knows.
#[verifier::ext_equal]
pub struct ResolverModel {
    pub collection: CollectionModel,
    pub styles: StyleStatus,
    /// Whether the system may be asked for a face.
    pub has_fallback: bool,
    /// The faces that the system answered with, by code point.
    pub fallback_faces: Map<u64, Option<u64>>,
}

/// The presentation asked for, or the code point's own.
pub open spec fn preferred_presentation(
    codepoint: u32,
    presentation: Option<Presentation>,
) -> Presentation {
    match presentation {
        Some(wanted) => wanted,
        None => if default_emoji(codepoint) {
            Presentation::Emoji
        } else {
            Presentation::Text
        },
    }
}

impl ResolverModel {
    /// The variant that stands for the one asked for.
    pub open spec fn usable(self, style: Style) -> Style {
        if self.styles.enabled(style) {
            style
        } else {
            Style::Normal
        }
    }

    /// The font among the faces of the collection: one of the variant in the
    /// preferred presentation, then a normal one; then one of the variant in
    /// any presentation, then a normal one.
    pub open spec fn installed(
        self,
        codepoint: u32,
        style: Style,
        presentation: Option<Presentation>,
    ) -> Result<Option<FontIndex>, FontNeed> {
        let variant = self.usable(style);
        let preferred = Some(preferred_presentation(codepoint, presentation));
        let c = self.collection;
        let none = Ok::<Option<FontIndex>, FontNeed>(None);
        let styled = c.lookup(codepoint, variant, preferred);
        let plain = if variant is Normal {
            none
        } else {
            c.lookup(codepoint, Style::Normal, preferred)
        };
        let styled_any = c.lookup(codepoint, variant, None);
        let plain_any = if variant is Normal {
            none
        } else {
            c.lookup(codepoint, Style::Normal, None)
        };
        first_of(styled, first_of(plain, first_of(styled_any, plain_any)))
    }

    /// Whether the system is to be asked: nothing installed fits, the variant
    /// is the normal one and the code point is a character.
    pub open spec fn asks_system(
        self,
        codepoint: u32,
        style: Style,
        presentation: Option<Presentation>,
    ) -> bool {
        &&& self.installed(codepoint, style, presentation) == Ok::<Option<FontIndex>, FontNeed>(
            None,
        )
        &&& self.usable(style) is Normal
        &&& self.has_fallback
        &&& is_scalar(codepoint)
    }

    /// The collection after a resolution: a face that the system answered with
    /// is added to the normal ones.
    pub open spec fn after(
        self,
        codepoint: u32,
        style: Style,
        presentation: Option<Presentation>,
    ) -> ResolverModel {
        if self.asks_system(codepoint, style, presentation) && self.fallback_faces.contains_key(
            codepoint as u64,
        ) {
            match self.fallback_faces[codepoint as u64] {
                Some(handle) => ResolverModel {
                    collection: self.collection.with_face(Style::Normal, handle),
                    ..self
                },
                None => self,
            }
        } else {
            self
        }
    }

    /// The font for a code point. A face that the system answers with counts
    /// if it has the code point in the preferred presentation or in any.
    pub open spec fn resolve(
        self,
        codepoint: u32,
        style: Style,
        presentation: Option<Presentation>,
    ) -> Result<Option<FontIndex>, FontNeed> {
        if !self.asks_system(codepoint, style, presentation) {
            self.installed(codepoint, style, presentation)
        } else if !self.fallback_faces.contains_key(codepoint as u64) {
            Err(FontNeed::Fallback { codepoint })
        } else {
            match self.fallback_faces[codepoint as u64] {
                None => Ok(None),
                Some(handle) => match self.collection.index_for_face(Style::Normal, handle) {
                    None => Ok(None),
                    Some(index) => {
                        let c = self.collection.with_face(Style::Normal, handle);
                        let preferred = Some(preferred_presentation(codepoint, presentation));
                        match c.supports(index, codepoint, preferred) {
                            Err(need) => Err(need),
                            Ok(true) => Ok(Some(index)),
                            Ok(false) => match c.supports(index, codepoint, None) {
                                Err(need) => Err(need),
                                Ok(true) => Ok(Some(index)),
                                Ok(false) => Ok(None),
                            },
                        }
                    },
                },
            }
        }
    }
}

/// Finds fonts for code points.
pub struct CodepointResolver {
    collection: Collection,
    styles: StyleStatus,
    has_fallback: bool,
    fallback_faces: RapidHashMap<u64, Option<u64>>,
}

impl View for CodepointResolver {
    type V = ResolverModel;

    closed spec fn view(&self) -> ResolverModel {
        ResolverModel {
            collection: self.collection@,
            styles: self.styles,
            has_fallback: self.has_fallback,
            fallback_faces: self.fallback_faces@,
        }
    }
}

impl CodepointResolver {
    /// A resolver over a collection, with all variants enabled and without the
    /// system's help.
    pub fn new(collection: Collection) -> (resolver: CodepointResolver)
        ensures
            resolver@.collection == collection@,
            forall|style: Style| #[trigger] resolver@.styles.enabled(style),
            !resolver@.has_fallback,
            resolver@.fallback_faces == Map::<u64, Option<u64>>::empty(),
    {
        CodepointResolver {
            collection,
            styles: StyleStatus::init_fill(true),
            has_fallback: false,
            fallback_faces: map_with_capacity(64),
        }
    }

    /// Lets the system be asked for faces, and forgets what an earlier system
    /// answered.
    pub fn set_dwrite_fallback(&mut self)
        ensures
            final(self)@ == (ResolverModel {
                has_fallback: true,
                fallback_faces: Map::empty(),
                ..old(self)@
            }),
    {
        self.has_fallback = true;
        self.fallback_faces.clear();
    }

    /// Tells the face that the system falls back to for a code point.
    pub fn tell_fallback(&mut self, codepoint: u32, handle: Option<u64>)
        ensures
            final(self)@ == (ResolverModel {
                fallback_faces: old(self)@.fallback_faces.insert(codepoint as u64, handle),
                ..old(self)@
            }),
    {
        let _ = map_insert(&mut self.fallback_faces, codepoint as u64, handle);
    }

    /// The index of a face, which is added to its variant unless it is there.
    pub fn add_dwrite_face(&mut self, style: Style, handle: u64) -> (index: Result<
        FontIndex,
        crate::font::collection::CollectionFullError,
    >)
        requires
            old(self)@.collection.wf(),
        ensures
            final(self)@.collection.wf(),
            final(self)@ == (ResolverModel {
                collection: old(self)@.collection.with_face(style, handle),
                ..old(self)@
            }),
            index == match old(self)@.collection.index_for_face(style, handle) {
                Some(index) => Ok::<FontIndex, crate::font::collection::CollectionFullError>(index),
                None => Err::<FontIndex, crate::font::collection::CollectionFullError>(
                    crate::font::collection::CollectionFullError,
                ),
            },
    {
        self.collection.get_or_insert_dwrite_face(style, handle)
    }

    /// Tells the glyph that the face of an index has for a code point.
    pub fn tell_glyph(&mut self, index: FontIndex, codepoint: u32, glyph: u16)
        requires
            index.wf(),
            old(self)@.collection.wf(),
        ensures
            final(self)@.collection.wf(),
            final(self)@ == (ResolverModel {
                collection: old(self)@.collection.told_glyph(index, codepoint, glyph),
                ..old(self)@
            }),
    {
        self.collection.tell_glyph(index, codepoint, glyph);
    }

    /// Tells whether a glyph of the face of an index is coloured.
    pub fn tell_color(&mut self, index: FontIndex, glyph: u16, colored: bool)
        requires
            index.wf(),
            old(self)@.collection.wf(),
        ensures
            final(self)@.collection.wf(),
            final(self)@ == (ResolverModel {
                collection: old(self)@.collection.told_color(index, glyph, colored),
                ..old(self)@
            }),
    {
        self.collection.tell_color(index, glyph, colored);
    }

    /// The font among the faces of the collection.
    fn get_installed(
        &self,
        codepoint: u32,
        style: Style,
        presentation: Option<Presentation>,
    ) -> (index: Result<Option<FontIndex>, FontNeed>)
        requires
            self@.collection.wf(),
        ensures
            index == self@.installed(codepoint, style, presentation),
            index matches Ok(Some(found)) ==> found.wf(),
    {
        let variant = if self.styles.get(style) {
            style
        } else {
            Style::Normal
        };
        let preferred = Some(self.preferred(codepoint, presentation));
        let styled = self.collection.get_index(codepoint, variant, preferred);
        if !is_missing(&styled) {
            return styled;
        }
        if variant != Style::Normal {
            let plain = self.collection.get_index(codepoint, Style::Normal, preferred);
            if !is_missing(&plain) {
                return plain;
            }
        }
        let styled_any = self.collection.get_index(codepoint, variant, None);
        if !is_missing(&styled_any) {
            return styled_any;
        }
        if variant != Style::Normal {
            return self.collection.get_index(codepoint, Style::Normal, None);
        }
        Ok(None)
    }

    fn preferred(&self, codepoint: u32, presentation: Option<Presentation>) -> (preferred:
        Presentation)
        ensures
            preferred == preferred_presentation(codepoint, presentation),
    {
        match presentation {
            Some(wanted) => wanted,
            None => if codepoint_default_emoji_presentation(codepoint) {
                Presentation::Emoji
            } else {
                Presentation::Text
            },
        }
    }

    /// The font for a code point, or what has to be told first.
    pub fn get_index(&mut self, codepoint: u32, style: Style, presentation: Option<Presentation>) -> (index:
        Result<Option<FontIndex>, FontNeed>)
        requires
            old(self)@.collection.wf(),
        ensures
            final(self)@.collection.wf(),
            final(self)@ == old(self)@.after(codepoint, style, presentation),
            index == old(self)@.resolve(codepoint, style, presentation),
            index matches Ok(Some(found)) ==> found.wf(),
    {
        let installed = self.get_installed(codepoint, style, presentation);
        if !is_missing(&installed) {
            return installed;
        }
        let normal: bool = !self.styles.get(style) || style == Style::Normal;
        if !normal || !self.has_fallback || char::from_u32(codepoint).is_none() {
            return Ok(None);
        }
        let handle: u64 = match map_get(&self.fallback_faces, codepoint as u64) {
            None => {
                return Err(FontNeed::Fallback { codepoint });
            },
            Some(None) => {
                return Ok(None);
            },
            Some(Some(handle)) => *handle,
        };
        let index = match self.collection.get_or_insert_dwrite_face(Style::Normal, handle) {
            Ok(index) => index,
            Err(_) => {
                return Ok(None);
            },
        };
        proof {
            let before = old(self)@.collection;
            crate::font::collection::law_face_keeps_its_index(before, Style::Normal, handle);
        }
        let preferred = Some(self.preferred(codepoint, presentation));
        match self.collection.has_codepoint(index, codepoint, preferred) {
            Err(need) => Err(need),
            Ok(true) => Ok(Some(index)),
            Ok(false) => match self.collection.has_codepoint(index, codepoint, None) {
                Err(need) => Err(need),
                Ok(true) => Ok(Some(index)),
                Ok(false) => Ok(None),
            },
        }
    }

    /// Whether the face of an index supports a code point.
    pub fn has_codepoint(
        &self,
        index: FontIndex,
        codepoint: u32,
        presentation: Option<Presentation>,
    ) -> (supports: Result<bool, FontNeed>)
        requires
            index.wf(),
        ensures
            supports == self@.collection.supports(index, codepoint, presentation),
    {
        self.collection.has_codepoint(index, codepoint, presentation)
    }

    /// The handle of the face of an index.
    pub fn face_for_index(&self, index: FontIndex) -> (handle: Option<u64>)
        requires
            index.wf(),
        ensures
            handle == self@.collection.handle_at(index),
    {
        self.collection.face_for_index(index)
    }

    /// Enables or disables a style variant.
    pub fn set_style(&mut self, style: Style, enabled: bool)
        ensures
            final(self)@.collection == old(self)@.collection,
            final(self)@.has_fallback == old(self)@.has_fallback,
            final(self)@.fallback_faces == old(self)@.fallback_faces,
            forall|other: Style| #[trigger]
                final(self)@.styles.enabled(other) == if other == style {
                    enabled
                } else {
                    old(self)@.styles.enabled(other)
                },
    {
        self.styles.set(style, enabled);
    }
}

/// Whether the answer is that there is no font.
fn is_missing(answer: &Result<Option<FontIndex>, FontNeed>) -> (missing: bool)
    ensures
        missing == (*answer == Ok::<Option<FontIndex>, FontNeed>(None)),
{
    match answer {
        Ok(None) => true,
        _ => false,
    }
}

/// Whether no face of a variant has a code point in a presentation.
pub open spec fn no_face_has(
    collection: CollectionModel,
    style: Style,
    codepoint: u32,
    presentation: Option<Presentation>,
) -> bool {
    forall|index: FontIndex|
        index.wf() && index.variant() == style && index.face() < collection.faces(style).len() ==> (
        #[trigger] collection.supports(index, codepoint, presentation)) == Ok::<bool, FontNeed>(
            false,
        )
}

proof fn lemma_lookup(
    collection: CollectionModel,
    codepoint: u32,
    style: Style,
    presentation: Option<Presentation>,
    i: int,
)
    requires
        collection.wf(),
        0 <= i,
        forall|index: FontIndex|
            index.wf() && index.variant() == style && index.face() < i ==> (
            #[trigger] collection.supports(index, codepoint, presentation)) == Ok::<bool, FontNeed>(
                false,
            ),
    ensures
        match collection.lookup_from(codepoint, style, presentation, i) {
            Ok(Some(found)) => {
                &&& found.wf()
                &&& found.variant() == style
                &&& found.face() < collection.faces(style).len()
                &&& collection.supports(found, codepoint, presentation) == Ok::<bool, FontNeed>(
                    true,
                )
                &&& forall|index: FontIndex|
                    index.wf() && index.variant() == style && index.face() < found.face() ==> (
                    #[trigger] collection.supports(index, codepoint, presentation)) == Ok::<
                        bool,
                        FontNeed,
                    >(false)
            },
            Ok(None) => no_face_has(collection, style, codepoint, presentation),
            Err(need) => true,
        },
    decreases collection.faces(style).len() - i,
{
    if i < collection.faces(style).len() {
        let index = crate::font::collection::index_of(style, i);
        crate::font::types::lemma_packed_parts(style, i);
        assert forall|other: FontIndex|
            other.wf() && other.variant() == style && other.face() == i implies other == index by {
            crate::font::types::law_font_index_is_its_parts(other, index);
        }
        if collection.supports(index, codepoint, presentation) == Ok::<bool, FontNeed>(false) {
            assert forall|other: FontIndex|
                other.wf() && other.variant() == style && other.face() < i + 1 implies (
            #[trigger] collection.supports(other, codepoint, presentation)) == Ok::<
                bool,
                FontNeed,
            >(false) by {
                if other.face() == i {
                    assert(other == index);
                }
            }
            lemma_lookup(collection, codepoint, style, presentation, i + 1);
        }
    }
}

/// A face that has a code point in some presentation has it.
proof fn lemma_has_it(
    collection: CollectionModel,
    index: FontIndex,
    codepoint: u32,
    wanted: Presentation,
)
    ensures
        collection.supports(index, codepoint, Some(wanted)) == Ok::<bool, FontNeed>(true)
            ==> collection.supports(index, codepoint, None) == Ok::<bool, FontNeed>(true),
        collection.supports(index, codepoint, None) == Ok::<bool, FontNeed>(false)
            ==> collection.supports(index, codepoint, Some(wanted)) == Ok::<bool, FontNeed>(false),
{
}

/// Which font shows a code point in an enabled style and a presentation. It is
/// one of the style or a normal one, and has the code point. It is a normal one
/// only if no face of the style has the code point in the presentation; it shows
/// the code point in another presentation only if no face of the style and no
/// normal one has it in that one; and it is then a normal one only if no face of
/// the style has the code point at all. Among the faces of its variant it is the
/// first that will do.
pub proof fn law_font_of_a_codepoint(
    r: ResolverModel,
    codepoint: u32,
    style: Style,
    wanted: Presentation,
    found: FontIndex,
)
    requires
        r.collection.wf(),
        r.styles.enabled(style),
        r.resolve(codepoint, style, Some(wanted)) == Ok::<Option<FontIndex>, FontNeed>(Some(found)),
    ensures
        ({
            let c = r.collection;
            let after = r.after(codepoint, style, Some(wanted)).collection;
            let has_wanted = after.supports(found, codepoint, Some(wanted)) == Ok::<bool, FontNeed>(
                true,
            );
            &&& found.wf()
            &&& found.variant() == style || found.variant() is Normal
            &&& after.supports(found, codepoint, None) == Ok::<bool, FontNeed>(true)
            &&& found.variant() != style ==> no_face_has(c, style, codepoint, Some(wanted))
            &&& !has_wanted ==> {
                &&& no_face_has(c, style, codepoint, Some(wanted))
                &&& no_face_has(c, Style::Normal, codepoint, Some(wanted))
            }
            &&& !has_wanted && found.variant() != style ==> no_face_has(c, style, codepoint, None)
            &&& found.face() < c.faces(found.variant()).len() ==> forall|index: FontIndex|
                index.wf() && index.variant() == found.variant() && index.face() < found.face()
                    ==> (#[trigger] c.supports(index, codepoint, Some(wanted))) == Ok::<
                    bool,
                    FontNeed,
                >(false)
        }),
{
    let c = r.collection;
    let w = Some(wanted);
    lemma_lookup(c, codepoint, style, w, 0);
    lemma_lookup(c, codepoint, Style::Normal, w, 0);
    lemma_lookup(c, codepoint, style, None, 0);
    lemma_lookup(c, codepoint, Style::Normal, None, 0);
    let after = r.after(codepoint, style, w).collection;
    lemma_has_it(after, found, codepoint, wanted);
    assert forall|index: FontIndex| #[trigger]
        c.supports(index, codepoint, None) == Ok::<bool, FontNeed>(false) implies c.supports(
        index,
        codepoint,
        w,
    ) == Ok::<bool, FontNeed>(false) by {
        lemma_has_it(c, index, codepoint, wanted);
    }
    if r.asks_system(codepoint, style, w) {
        let handle = r.fallback_faces[codepoint as u64]->0;
        let at = c.place_of(Style::Normal, handle, 0);
        crate::font::collection::law_face_keeps_its_index(c, Style::Normal, handle);
        crate::font::types::lemma_packed_parts(Style::Normal, at);
        assert(found == crate::font::collection::index_of(Style::Normal, at));
        if found.face() < c.faces(Style::Normal).len() {
            assert(c.supports(found, codepoint, None) == Ok::<bool, FontNeed>(false));
        }
    }
}

/// If a face of an enabled style has a code point in a presentation, the font
/// that is found is one of that style and has it in that presentation.
pub proof fn law_style_asked_for_comes_first(
    r: ResolverModel,
    codepoint: u32,
    style: Style,
    wanted: Presentation,
    index: FontIndex,
)
    requires
        r.collection.wf(),
        r.styles.enabled(style),
        index.wf(),
        index.variant() == style,
        index.face() < r.collection.faces(style).len(),
        r.collection.supports(index, codepoint, Some(wanted)) == Ok::<bool, FontNeed>(true),
    ensures
        match r.resolve(codepoint, style, Some(wanted)) {
            Ok(Some(found)) => {
                &&& found.variant() == style
                &&& found.face() <= index.face()
                &&& r.collection.supports(found, codepoint, Some(wanted)) == Ok::<bool, FontNeed>(
                    true,
                )
            },
            Ok(None) => false,
            Err(need) => true,
        },
{
    lemma_lookup(r.collection, codepoint, style, Some(wanted), 0);
    lemma_has_it(r.collection, index, codepoint, wanted);
}

/// A code point is without a font only if no face of the style and no normal
/// one has it.
pub proof fn law_no_font_only_if_no_face_has_it(
    r: ResolverModel,
    codepoint: u32,
    style: Style,
    presentation: Option<Presentation>,
)
    requires
        r.collection.wf(),
        r.styles.enabled(style),
        r.resolve(codepoint, style, presentation) == Ok::<Option<FontIndex>, FontNeed>(None) || r.resolve(
            codepoint,
            style,
            presentation,
        ) == Err::<Option<FontIndex>, FontNeed>(FontNeed::Fallback { codepoint }),
    ensures
        no_face_has(r.collection, style, codepoint, None),
        no_face_has(r.collection, Style::Normal, codepoint, None),
{
    let c = r.collection;
    let w = Some(preferred_presentation(codepoint, presentation));
    lemma_lookup(c, codepoint, style, w, 0);
    lemma_lookup(c, codepoint, Style::Normal, w, 0);
    lemma_lookup(c, codepoint, style, None, 0);
    lemma_lookup(c, codepoint, Style::Normal, None, 0);
    lemma_lookup_needs(c, codepoint, style, w, 0);
    lemma_lookup_needs(c, codepoint, Style::Normal, w, 0);
    lemma_lookup_needs(c, codepoint, style, None, 0);
    lemma_lookup_needs(c, codepoint, Style::Normal, None, 0);
    if r.asks_system(codepoint, style, presentation) && r.fallback_faces.contains_key(
        codepoint as u64,
    ) {
        if let Some(handle) = r.fallback_faces[codepoint as u64] {
            if let Some(index) = c.index_for_face(Style::Normal, handle) {
                let after = c.with_face(Style::Normal, handle);
                assert(after.supports(index, codepoint, w) != Err::<bool, FontNeed>(
                    FontNeed::Fallback { codepoint },
                ));
            }
        }
    }
}

/// A look at the faces never asks the system.
proof fn lemma_lookup_needs(
    collection: CollectionModel,
    codepoint: u32,
    style: Style,
    presentation: Option<Presentation>,
    i: int,
)
    ensures
        collection.lookup_from(codepoint, style, presentation, i) matches Err(need) ==> !(
        need is Fallback),
    decreases collection.faces(style).len() - i,
{
    if 0 <= i < collection.faces(style).len() {
        lemma_lookup_needs(collection, codepoint, style, presentation, i + 1);
    }
}

/// A style that is not enabled is shown like the normal one.
pub proof fn law_disabled_style_is_normal(
    r: ResolverModel,
    codepoint: u32,
    style: Style,
    presentation: Option<Presentation>,
)
    requires
        !r.styles.enabled(style),
    ensures
        r.resolve(codepoint, style, presentation) == r.resolve(
            codepoint,
            Style::Normal,
            presentation,
        ),
{
}

/// Where no presentation is asked for, an emoji is looked for as an emoji and
/// anything else as text.
pub proof fn law_default_presentation(r: ResolverModel, codepoint: u32, style: Style)
    ensures
        r.resolve(codepoint, style, None) == r.resolve(
            codepoint,
            style,
            Some(
                if default_emoji(codepoint) {
                    Presentation::Emoji
                } else {
                    Presentation::Text
                },
            ),
        ),
{
}

/// The system is asked last: only where it may be, for a character, in the
/// normal style or one that is not enabled, and if it did not answer yet. A font
/// that no face accounts for is the face that it answered with.
pub proof fn law_system_is_asked_last(
    r: ResolverModel,
    codepoint: u32,
    style: Style,
    presentation: Option<Presentation>,
    other: u32,
)
    requires
        r.collection.wf(),
    ensures
        r.resolve(codepoint, style, presentation) == Err::<Option<FontIndex>, FontNeed>(
            FontNeed::Fallback { codepoint: other },
        ) ==> {
            &&& other == codepoint
            &&& r.has_fallback
            &&& codepoint < 0xd800 || 0xe000 <= codepoint < 0x11_0000
            &&& style is Normal || !r.styles.enabled(style)
            &&& !r.fallback_faces.contains_key(codepoint as u64)
        },
        no_face_has(r.collection, style, codepoint, None) && no_face_has(
            r.collection,
            Style::Normal,
            codepoint,
            None,
        ) ==> (r.resolve(codepoint, style, presentation) matches Ok(Some(found)) ==> {
            &&& r.fallback_faces.contains_key(codepoint as u64)
            &&& r.fallback_faces[codepoint as u64] is Some
            &&& r.after(codepoint, style, presentation).collection.handle_at(found)
                == r.fallback_faces[codepoint as u64]
        }),
{
    let c = r.collection;
    let variant = r.usable(style);
    let wanted = preferred_presentation(codepoint, presentation);
    let w = Some(wanted);
    lemma_lookup_needs(c, codepoint, variant, w, 0);
    lemma_lookup_needs(c, codepoint, Style::Normal, w, 0);
    lemma_lookup_needs(c, codepoint, variant, None, 0);
    lemma_lookup_needs(c, codepoint, Style::Normal, None, 0);
    lemma_lookup(c, codepoint, variant, w, 0);
    lemma_lookup(c, codepoint, Style::Normal, w, 0);
    lemma_lookup(c, codepoint, variant, None, 0);
    lemma_lookup(c, codepoint, Style::Normal, None, 0);
    if r.resolve(codepoint, style, presentation) matches Ok(Some(_)) {
        let found = r.resolve(codepoint, style, presentation)->Ok_0->0;
        lemma_has_it(c, found, codepoint, wanted);
        if r.asks_system(codepoint, style, presentation) {
            let handle = r.fallback_faces[codepoint as u64]->0;
            let at = c.place_of(Style::Normal, handle, 0);
            crate::font::collection::law_face_keeps_its_index(c, Style::Normal, handle);
            crate::font::types::lemma_packed_parts(Style::Normal, at);
        }
    }
}

} // verus!
