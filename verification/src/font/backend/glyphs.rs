//! The glyphs of a segment.
//!
//! Simple text has a glyph for each unit. For other text the system is asked for
//! glyphs, in more and more room as long as there is too little, and then for
//! their places. The functions that ask the system are handed in; an error of
//! theirs is a number that ends the search.
use crate::font::backend::analyzer::{is_simple_segment, GlyphOffset, PixelOffset};
#[allow(unused_imports)]
use crate::font::backend::analyzer::roomier;
use vstd::prelude::*;

verus! {

/// The glyphs of a segment.
#[derive(Debug)]
pub enum SegmentGlyphs {
    /// A glyph for each unit.
    Simple { indices: Vec<u16> },
    /// Glyphs with their places.
    Placed {
        cluster_map: Vec<u16>,
        indices: Vec<u16>,
        advances: Vec<u32>,
        offsets: Vec<GlyphOffset>,
        pixels: Vec<PixelOffset>,
    },
}

impl SegmentGlyphs {
    /// They are the glyphs of so many units of text.
    pub open spec fn fits(self, text_len: nat) -> bool {
        match self {
            SegmentGlyphs::Simple { indices } => indices@.len() >= text_len,
            SegmentGlyphs::Placed { cluster_map, indices, advances, offsets, pixels } => {
                &&& cluster_map@.len() == text_len
                &&& indices@.len() <= u16::MAX
                &&& advances@.len() == indices@.len()
                &&& offsets@.len() == indices@.len()
                &&& pixels@.len() == indices@.len()
            },
        }
    }
}

/// Why a segment got no glyphs.
#[derive(Clone, Copy, Debug, PartialEq, Eq, Structural)]
pub enum GlyphError {
    /// There was too little room again and again.
    TooManyAttempts,
    /// The system refused.
    System(u32),
}

/// How many attempts are made at getting glyphs.
pub const MAX_ATTEMPTS: u8 = 8;

/// What comes of asking for glyphs, in room for `cap` of them, with so many
/// attempts left. `attempt` says how many there are, if the room was enough;
/// `reserve` makes room and says for how many glyphs it is.
pub open spec fn attempts_outcome<
    G: Fn(usize) -> Option<u32>,
    R: Fn(usize) -> Result<usize, u32>,
>(
    attempt: G,
    reserve: R,
    text_len: usize,
    cap: usize,
    left: int,
    count: Result<u32, GlyphError>,
) -> bool
    decreases left,
{
    if left <= 0 {
        count == Err::<u32, GlyphError>(GlyphError::TooManyAttempts)
    } else {
        let more = roomier(cap, text_len) as usize;
        ||| (count matches Ok(n) && attempt.ensures((cap,), Some(n)))
        ||| {
            &&& attempt.ensures((cap,), None)
            &&& {
                ||| (count matches Err(GlyphError::System(code)) && reserve.ensures(
                    (more,),
                    Err(code),
                ))
                ||| exists|next: usize|
                    {
                        &&& #[trigger] reserve.ensures((more,), Ok(next))
                        &&& attempts_outcome(attempt, reserve, text_len, next, left - 1, count)
                    }
            }
        }
    }
}

/// Asks for glyphs, with so many attempts left. After each that failed there is
/// room for half as many again.
pub fn count_glyphs<G: Fn(usize) -> Option<u32>, R: Fn(usize) -> Result<usize, u32>>(
    attempt: &G,
    reserve: &R,
    text_len: usize,
    cap: usize,
    left: u8,
) -> (count: Result<u32, GlyphError>)
    requires
        text_len + 8 <= usize::MAX,
        forall|n: usize| attempt.requires((n,)),
        forall|n: usize| reserve.requires((n,)),
    ensures
        attempts_outcome(*attempt, *reserve, text_len, cap, left as int, count),
    decreases left,
{
    if left == 0 {
        return Err(GlyphError::TooManyAttempts);
    }
    match attempt(cap) {
        Some(n) => Ok(n),
        None => {
            let half: usize = cap.saturating_add(cap / 2);
            let least: usize = text_len + 8;
            let more: usize = if half < least {
                least
            } else {
                half
            };
            match reserve(more) {
                Err(code) => {
                    assert(reserve.ensures((roomier(cap, text_len) as usize,), Err(code)));
                    Err(GlyphError::System(code))
                },
                Ok(next) => {
                    let count = count_glyphs(attempt, reserve, text_len, next, left - 1);
                    assert(reserve.ensures((roomier(cap, text_len) as usize,), Ok(next)));
                    assert(attempts_outcome(
                        *attempt,
                        *reserve,
                        text_len,
                        next,
                        left as int - 1,
                        count,
                    ));
                    count
                },
            }
        },
    }
}

/// What comes of asking for the glyphs of a segment. Without font features it
/// may turn out to be simple; else glyphs are asked for and placed.
pub open spec fn glyphs_outcome<
    C: Fn(usize) -> Result<(bool, u32, Vec<u16>), u32>,
    G: Fn(usize) -> Option<u32>,
    R: Fn(usize) -> Result<usize, u32>,
    P: Fn(u32) -> Result<SegmentGlyphs, u32>,
>(
    complexity: C,
    attempt: G,
    reserve: R,
    place: P,
    has_features: bool,
    text_len: usize,
    cap: usize,
    glyphs: Result<SegmentGlyphs, GlyphError>,
) -> bool {
    ||| {
        &&& !has_features
        &&& glyphs matches Err(GlyphError::System(code)) && complexity.ensures(
            (text_len,),
            Err(code),
        )
    }
    ||| {
        &&& !has_features
        &&& exists|read: u32, indices: Vec<u16>|
            {
                &&& #[trigger] complexity.ensures((text_len,), Ok((true, read, indices)))
                &&& read == text_len
                &&& glyphs == Ok::<SegmentGlyphs, GlyphError>(SegmentGlyphs::Simple { indices })
            }
    }
    ||| {
        &&& has_features || (exists|simple: bool, read: u32, indices: Vec<u16>|
            {
                &&& #[trigger] complexity.ensures((text_len,), Ok((simple, read, indices)))
                &&& !(simple && read == text_len)
            })
        &&& exists|count: Result<u32, GlyphError>|
            {
                &&& #[trigger] attempts_outcome(
                    attempt,
                    reserve,
                    text_len,
                    cap,
                    MAX_ATTEMPTS as int,
                    count,
                )
                &&& match count {
                    Err(error) => glyphs == Err::<SegmentGlyphs, GlyphError>(error),
                    Ok(n) => match glyphs {
                        Ok(placed) => place.ensures((n,), Ok(placed)),
                        Err(GlyphError::System(code)) => place.ensures((n,), Err(code)),
                        Err(GlyphError::TooManyAttempts) => false,
                    },
                }
            }
    }
}

/// Asks for the glyphs of a segment. `complexity` says whether the text is
/// simple, how much of it was looked at, and its glyphs if so; `place` gives the
/// glyphs of the last attempt their places.
pub fn segment_glyphs<
    C: Fn(usize) -> Result<(bool, u32, Vec<u16>), u32>,
    G: Fn(usize) -> Option<u32>,
    R: Fn(usize) -> Result<usize, u32>,
    P: Fn(u32) -> Result<SegmentGlyphs, u32>,
>(
    complexity: &C,
    attempt: &G,
    reserve: &R,
    place: &P,
    has_features: bool,
    text_len: usize,
    cap: usize,
) -> (glyphs: Result<SegmentGlyphs, GlyphError>)
    requires
        text_len + 8 <= usize::MAX,
        forall|n: usize| complexity.requires((n,)),
        forall|n: usize| attempt.requires((n,)),
        forall|n: usize| reserve.requires((n,)),
        forall|n: u32| place.requires((n,)),
    ensures
        glyphs_outcome(
            *complexity,
            *attempt,
            *reserve,
            *place,
            has_features,
            text_len,
            cap,
            glyphs,
        ),
{
    if !has_features {
        match complexity(text_len) {
            Err(code) => {
                return Err(GlyphError::System(code));
            },
            Ok((simple, read, indices)) => {
                assert(complexity.ensures((text_len,), Ok((simple, read, indices))));
                if is_simple_segment(has_features, (simple, read), text_len) {
                    return Ok(SegmentGlyphs::Simple { indices });
                }
            },
        }
    }
    let count = count_glyphs(attempt, reserve, text_len, cap, MAX_ATTEMPTS);
    assert(attempts_outcome(*attempt, *reserve, text_len, cap, MAX_ATTEMPTS as int, count));
    match count {
        Err(error) => Err(error),
        Ok(n) => match place(n) {
            Ok(placed) => Ok(placed),
            Err(code) => Err(GlyphError::System(code)),
        },
    }
}

} // verus!
