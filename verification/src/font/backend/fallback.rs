//! Falling back to another face for a code point that no loaded face has.
use crate::text::push_utf16;
#[allow(unused_imports)]
use crate::text::{is_scalar, utf16_units};
use vstd::prelude::*;

verus! {

/// A span of text that one face of the system can draw.
#[derive(Clone, Copy, Debug, PartialEq, Eq, Structural)]
pub struct MappedFontRun {
    /// Length of the span in UTF-16 units.
    pub text_length: u32,
    /// The face, if there is one.
    pub font_face: Option<u64>,
}

/// The system mapped no text at all.
#[derive(Clone, Copy, Debug, PartialEq, Eq, Structural)]
pub struct EmptyMapping;

impl MappedFontRun {
    /// What the system answered to a request to map some text.
    pub fn of_answer(text_length: u32, font_face: Option<u64>) -> (run: Result<
        MappedFontRun,
        EmptyMapping,
    >)
        ensures
            run == if text_length == 0 {
                Err::<MappedFontRun, EmptyMapping>(EmptyMapping)
            } else {
                Ok(MappedFontRun { text_length, font_face })
            },
    {
        if text_length == 0 {
            Err(EmptyMapping)
        } else {
            Ok(MappedFontRun { text_length, font_face })
        }
    }
}

/// The text to ask the system about for a code point; there is none for a
/// number that is not a character.
pub fn fallback_text(codepoint: u32) -> (text: Option<Vec<u16>>)
    ensures
        match text {
            Some(text) => is_scalar(codepoint) && text@ == utf16_units(codepoint),
            None => !is_scalar(codepoint),
        },
{
    match char::from_u32(codepoint) {
        Some(_) => {
            let mut text: Vec<u16> = Vec::new();
            push_utf16(&mut text, codepoint);
            assert(text@ =~= utf16_units(codepoint));
            Some(text)
        },
        None => None,
    }
}

/// The face to fall back to: that of the mapped run, if mapping went well.
pub fn fallback_face(run: Result<MappedFontRun, EmptyMapping>) -> (face: Option<u64>)
    ensures
        face == match run {
            Ok(run) => run.font_face,
            Err(_) => None,
        },
{
    match run {
        Ok(run) => run.font_face,
        Err(_) => None,
    }
}

} // verus!
