//! The primary faces: one for each style.
//!
//! Faces are looked up in the system's fonts by family name. Where a family is
//! missing, a family that every system has takes its place.
use crate::font::settings::FontAxisSpec;
use crate::font::types::Style;
use crate::text::{chars_of, eq_ignore_ascii_case, trim};
#[allow(unused_imports)]
use crate::text::{same_but_case, trimmed};
use vstd::prelude::*;

verus! {

/// What a style asks for.
#[derive(Clone, Debug)]
pub struct StyleVariationRequest<'a> {
    pub family: &'a str,
    pub axes: FontAxisSpec,
}

/// Why a style has no face.
#[derive(Clone, Copy, Debug, PartialEq, Eq, Structural)]
pub enum FaceError {
    /// The family name is blank.
    EmptyFamily,
    /// Neither the family nor the one in its place has a usable face.
    NoFace,
}

/// A style without a face.
#[derive(Clone, Copy, Debug, PartialEq, Eq, Structural)]
pub struct StyleError {
    pub style: Style,
    pub error: FaceError,
}

/// What to ask for in a family.
#[derive(Clone, Copy, Debug, PartialEq, Eq, Structural)]
pub struct FaceTraits {
    pub weight: i32,
    pub italic: bool,
}

pub const WEIGHT_NORMAL: i32 = 400;

pub const WEIGHT_BOLD: i32 = 700;

/// Weight and slant of a style.
pub fn face_traits(style: Style) -> (traits: FaceTraits)
    ensures
        traits.weight == if style is Bold || style is BoldItalic {
            WEIGHT_BOLD
        } else {
            WEIGHT_NORMAL
        },
        traits.italic == (style is Italic || style is BoldItalic),
{
    FaceTraits {
        weight: if style.is_bold() {
            WEIGHT_BOLD
        } else {
            WEIGHT_NORMAL
        },
        italic: style.is_italic(),
    }
}

/// Whether a failed lookup of the family is to be followed by one of Consolas.
pub fn has_stand_in(family: &str) -> (stand_in: bool)
    ensures
        stand_in == !same_but_case(family@, "Consolas"@),
{
    !eq_ignore_ascii_case(family, "Consolas")
}

/// What lookups of a family make of a style: the family's face if it has one,
/// else that of Consolas.
pub open spec fn style_outcome<F: Fn(bool, Style, &str) -> Option<u64>>(
    lookup: F,
    refreshed: bool,
    style: Style,
    family: &str,
    face: Result<u64, FaceError>,
) -> bool {
    if trimmed(family@).len() == 0 {
        face == Err::<u64, FaceError>(FaceError::EmptyFamily)
    } else {
        match face {
            Ok(face) => {
                ||| lookup.ensures((refreshed, style, family), Some(face))
                ||| {
                    &&& lookup.ensures((refreshed, style, family), None)
                    &&& !same_but_case(family@, "Consolas"@)
                    &&& lookup.ensures((refreshed, style, "Consolas"), Some(face))
                }
            },
            Err(error) => {
                &&& error is NoFace
                &&& lookup.ensures((refreshed, style, family), None)
                &&& same_but_case(family@, "Consolas"@) || lookup.ensures(
                    (refreshed, style, "Consolas"),
                    None,
                )
            },
        }
    }
}

/// Looks up the face of a style. `lookup` is asked whether to use the refreshed
/// font collection, for which style and in which family.
pub fn resolve_style_face<F: Fn(bool, Style, &str) -> Option<u64>>(
    lookup: &F,
    refreshed: bool,
    style: Style,
    family: &str,
) -> (face: Result<u64, FaceError>)
    requires
        forall|r: bool, s: Style, f: &str| lookup.requires((r, s, f)),
    ensures
        style_outcome(*lookup, refreshed, style, family, face),
{
    let chars = chars_of(family);
    if trim(&chars).len() == 0 {
        return Err(FaceError::EmptyFamily);
    }
    match lookup(refreshed, style, family) {
        Some(face) => Ok(face),
        None => {
            if has_stand_in(family) {
                match lookup(refreshed, style, "Consolas") {
                    Some(face) => Ok(face),
                    None => Err(FaceError::NoFace),
                }
            } else {
                Err(FaceError::NoFace)
            }
        },
    }
}

/// Lookups give the style a face.
pub open spec fn style_has_face<F: Fn(bool, Style, &str) -> Option<u64>>(
    lookup: F,
    refreshed: bool,
    style: Style,
    family: &str,
) -> bool {
    exists|face: u64| #[trigger] style_outcome(lookup, refreshed, style, family, Ok(face))
}

/// What lookups make of the four styles in one collection: a face for each, or
/// the first that has none.
pub open spec fn faces_outcome<F: Fn(bool, Style, &str) -> Option<u64>>(
    lookup: F,
    refreshed: bool,
    requests: [StyleVariationRequest<'_>; 4],
    faces: Result<[u64; 4], StyleError>,
) -> bool {
    match faces {
        Ok(faces) => forall|i: int|
            0 <= i < 4 ==> style_outcome(
                lookup,
                refreshed,
                Style::of_rank(i),
                #[trigger] requests@[i].family,
                Ok(faces@[i]),
            ),
        Err(error) => exists|n: int|
            {
                &&& 0 <= n < 4
                &&& error.style == Style::of_rank(n)
                &&& style_outcome(
                    lookup,
                    refreshed,
                    error.style,
                    #[trigger] requests@[n].family,
                    Err(error.error),
                )
                &&& forall|i: int|
                    0 <= i < n ==> style_has_face(
                        lookup,
                        refreshed,
                        Style::of_rank(i),
                        #[trigger] requests@[i].family,
                    )
            },
    }
}

/// Looks up the faces of the four styles in one collection.
pub fn resolve_primary_faces_in_collection<F: Fn(bool, Style, &str) -> Option<u64>>(
    lookup: &F,
    refreshed: bool,
    requests: &[StyleVariationRequest<'_>; 4],
) -> (faces: Result<[u64; 4], StyleError>)
    requires
        forall|r: bool, s: Style, f: &str| lookup.requires((r, s, f)),
    ensures
        faces_outcome(*lookup, refreshed, *requests, faces),
{
    let styles = Style::all();
    let mut faces: [u64; 4] = [0, 0, 0, 0];
    let mut i: usize = 0;
    while i < 4
        invariant
            forall|r: bool, s: Style, f: &str| lookup.requires((r, s, f)),
            i <= 4,
            forall|j: int| 0 <= j < 4 ==> styles@[j] == Style::of_rank(j),
            forall|j: int|
                0 <= j < i ==> style_outcome(
                    *lookup,
                    refreshed,
                    Style::of_rank(j),
                    #[trigger] requests@[j].family,
                    Ok(faces@[j]),
                ),
        decreases 4 - i,
    {
        let style = styles[i];
        let family = requests[i].family;
        match resolve_style_face(lookup, refreshed, style, family) {
            Ok(face) => {
                faces[i] = face;
            },
            Err(error) => {
                proof {
                    assert(family == requests@[i as int].family);
                    assert forall|j: int| 0 <= j < i implies style_has_face(
                        *lookup,
                        refreshed,
                        Style::of_rank(j),
                        #[trigger] requests@[j].family,
                    ) by {
                        assert(style_outcome(
                            *lookup,
                            refreshed,
                            Style::of_rank(j),
                            requests@[j].family,
                            Ok(faces@[j]),
                        ));
                    }
                }
                return Err(StyleError { style, error });
            },
        }
        i += 1;
    }
    Ok(faces)
}

/// What lookups make of the four styles: what they make of them at first, or, if
/// a style has no face, in a refreshed collection.
pub open spec fn primary_outcome<F: Fn(bool, Style, &str) -> Option<u64>>(
    lookup: F,
    requests: [StyleVariationRequest<'_>; 4],
    faces: Result<[u64; 4], StyleError>,
) -> bool {
    ||| (faces is Ok && faces_outcome(lookup, false, requests, faces))
    ||| (exists|first: StyleError| #[trigger]
        faces_outcome(lookup, false, requests, Err(first)) && faces_outcome(
            lookup,
            true,
            requests,
            faces,
        ))
}

/// Looks up the faces of the four styles. If a style has none, the fonts are
/// looked up once more in a refreshed collection, and what that gives counts.
pub fn resolve_primary_faces<F: Fn(bool, Style, &str) -> Option<u64>>(
    lookup: &F,
    requests: &[StyleVariationRequest<'_>; 4],
) -> (faces: Result<[u64; 4], StyleError>)
    requires
        forall|r: bool, s: Style, f: &str| lookup.requires((r, s, f)),
    ensures
        primary_outcome(*lookup, *requests, faces),
{
    match resolve_primary_faces_in_collection(lookup, false, requests) {
        Ok(faces) => Ok(faces),
        Err(first) => {
            assert(faces_outcome(*lookup, false, *requests, Err(first)));
            resolve_primary_faces_in_collection(lookup, true, requests)
        },
    }
}

/// The weights that are asked for, on the scale of OpenType.
pub proof fn law_weights()
    ensures
        WEIGHT_NORMAL == 400,
        WEIGHT_BOLD == 700,
{
}

} // verus!
