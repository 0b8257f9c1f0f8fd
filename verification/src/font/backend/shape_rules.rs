//! What holds of shaped text, whatever the system answers.
#[allow(unused_imports)]
use crate::font::backend::analyzer::{
    expected_glyphs, nothing_used, output_need, roomier, scratch_need, spans_since, used_after,
    GlyphOffset, PixelOffset,
};
#[allow(unused_imports)]
use crate::font::backend::arena::OutputUsed;
#[allow(unused_imports)]
use crate::font::backend::glyphs::{attempts_outcome, glyphs_outcome, GlyphError, SegmentGlyphs};
#[allow(unused_imports)]
use crate::font::backend::segments::{overlap, segment_run, segments_from, TextSegment};
#[allow(unused_imports)]
use crate::font::backend::shape::{
    analysis_fits, asked, assembled, part, segment_model, segments_outcome, shape_outcome,
    ShapeError, ShapedCells,
};
#[allow(unused_imports)]
use crate::font::backend::variation::{
    faces_outcome, primary_outcome, style_has_face, style_outcome, FaceError, StyleError,
    StyleVariationRequest,
};
#[allow(unused_imports)]
use crate::font::shaper::run_iter::Codepoint;
#[allow(unused_imports)]
use crate::font::types::{BidiRun, ScriptRun, Style, TextRun};
#[allow(unused_imports)]
use crate::text::{same_but_case, trimmed};
use vstd::prelude::*;

verus! {

/// A segment is the whole of where a script stretch and a level meet.
pub open spec fn is_where_they_meet(
    segment: TextSegment,
    script: ScriptRun,
    bidi: BidiRun,
) -> bool {
    let (a, b) = (script.text_position as int, bidi.text_position as int);
    let (c, d) = (a + script.text_length, b + bidi.text_length);
    let end = segment.start + segment.len;
    &&& segment.len > 0
    &&& a <= segment.start && b <= segment.start && (segment.start == a || segment.start == b)
    &&& end <= c && end <= d && (end == c || end == d)
    &&& segment.script == script.script
    &&& segment.shapes == script.shapes
    &&& segment.rtl == (bidi.resolved_level % 2 == 1)
}

/// Each segment has one script and one direction: it is where a script stretch and
/// a level meet, with the script of the one and the direction of the other. An odd
/// level goes from right to left.
pub proof fn law_segments_are_of_one_kind(
    scripts: Seq<ScriptRun>,
    bidis: Seq<BidiRun>,
    s: int,
    b: int,
    k: int,
)
    requires
        0 <= s,
        0 <= b,
        forall|i: int|
            0 <= i < scripts.len() ==> (#[trigger] scripts[i]).text_position
                + scripts[i].text_length <= u32::MAX,
        0 <= k < segments_from(scripts, bidis, s, b).len(),
    ensures
        exists|i: int, j: int|
            s <= i < scripts.len() && b <= j < bidis.len() && is_where_they_meet(
                segments_from(scripts, bidis, s, b)[k],
                #[trigger] scripts[i],
                #[trigger] bidis[j],
            ),
    decreases scripts.len() - s + bidis.len() - b,
{
    let all = segments_from(scripts, bidis, s, b);
    let first = overlap(scripts[s], bidis[b]);
    if k < first.len() {
        assert(all[k] == first[0]);
        assert(is_where_they_meet(all[k], scripts[s], bidis[b]));
    } else if scripts[s].text_position + scripts[s].text_length <= bidis[b].text_position
        + bidis[b].text_length {
        law_segments_are_of_one_kind(scripts, bidis, s + 1, b, k - first.len());
        assert(all[k] == segments_from(scripts, bidis, s + 1, b)[k - first.len()]);
    } else {
        law_segments_are_of_one_kind(scripts, bidis, s, b + 1, k - first.len());
        assert(all[k] == segments_from(scripts, bidis, s, b + 1)[k - first.len()]);
    }
}

/// Simple text has a cell for each code point, at its column, with its glyph, where
/// nothing is shifted and each glyph is as wide as a cell; each unit is a cluster of
/// its own.
pub proof fn law_simple_segment(codepoints: Seq<Codepoint>, cell_width: u32, indices: Vec<u16>)
    requires
        codepoints.len() < u16::MAX,
        forall|i: int| 0 <= i < codepoints.len() ==> (#[trigger] codepoints[i]).cluster <= u16::MAX,
    ensures
        ({
            let out = segment_model(codepoints, cell_width, SegmentGlyphs::Simple { indices });
            let n = codepoints.len();
            &&& out.cells.len() == n
            &&& out.glyph_advances.len() == n
            &&& out.glyph_offsets.len() == n
            &&& out.cluster_map.len() == n + 1
            &&& forall|i: int|
                0 <= i < n ==> (#[trigger] out.cells[i]).x == codepoints[i].cluster
                    && out.cells[i].x_offset == 0 && out.cells[i].y_offset == 0
                    && out.cells[i].glyph_index == indices@[i]
            &&& forall|i: int| 0 <= i < n ==> #[trigger] out.glyph_advances[i] == cell_width
            &&& forall|i: int|
                0 <= i < n ==> (#[trigger] out.glyph_offsets[i]).advance_offset == 0
                    && out.glyph_offsets[i].ascender_offset == 0
            &&& forall|i: int| 0 <= i <= n ==> #[trigger] out.cluster_map[i] == i
        }),
{
}

/// A segment with placed glyphs has a cell for each glyph, with its index and its
/// shift in pixels; its advances, offsets and clusters are those of the glyphs, and
/// the clusters end with their number.
pub proof fn law_placed_segment(
    codepoints: Seq<Codepoint>,
    cell_width: u32,
    cluster_map: Vec<u16>,
    indices: Vec<u16>,
    advances: Vec<u32>,
    offsets: Vec<GlyphOffset>,
    pixels: Vec<PixelOffset>,
)
    requires
        indices@.len() <= u16::MAX,
    ensures
        ({
            let out = segment_model(
                codepoints,
                cell_width,
                SegmentGlyphs::Placed { cluster_map, indices, advances, offsets, pixels },
            );
            &&& out.cells.len() == indices@.len()
            &&& forall|g: int|
                0 <= g < indices@.len() ==> (#[trigger] out.cells[g]).glyph_index == indices@[g]
                    && out.cells[g].x_offset == pixels@[g].x && out.cells[g].y_offset
                    == pixels@[g].y
            &&& out.glyph_advances == advances@
            &&& out.glyph_offsets == offsets@
            &&& out.cluster_map.len() == cluster_map@.len() + 1
            &&& out.cluster_map.take(cluster_map@.len() as int) == cluster_map@
            &&& out.cluster_map.last() == indices@.len()
        }),
{
    let out = segment_model(
        codepoints,
        cell_width,
        SegmentGlyphs::Placed { cluster_map, indices, advances, offsets, pixels },
    );
    assert(out.cluster_map.take(cluster_map@.len() as int) =~= cluster_map@);
}

/// A segment's run stands where the segment does and is as long; font and hash are
/// those of the whole run. Its code points are those at its place.
pub proof fn law_run_of_a_segment(
    base: TextRun,
    codepoints: Seq<Codepoint>,
    segment: TextSegment,
    i: int,
)
    requires
        base.offset + segment.start <= u16::MAX,
        segment.len <= u16::MAX,
        segment.start + segment.len <= codepoints.len(),
        0 <= i < segment.len,
    ensures
        segment_run(base, segment).offset == base.offset + segment.start,
        segment_run(base, segment).cells == segment.len,
        segment_run(base, segment).font_index == base.font_index,
        segment_run(base, segment).hash == base.hash,
        part(codepoints, segment).len() == segment.len,
        part(codepoints, segment)[i] == codepoints[segment.start + i],
{
}

/// One segment more adds what it gives behind all that was there, which stays.
pub proof fn law_segments_are_added(
    base: TextRun,
    codepoints: Seq<Codepoint>,
    cell_width: u32,
    segs: Seq<TextSegment>,
    glyphs: Seq<SegmentGlyphs>,
    n: int,
)
    requires
        0 <= n < segs.len(),
    ensures
        ({
            let before = assembled(base, codepoints, cell_width, segs, glyphs, n);
            let now = assembled(base, codepoints, cell_width, segs, glyphs, n + 1);
            let more = segment_model(part(codepoints, segs[n]), cell_width, glyphs[n]);
            &&& now.runs == before.runs.push(segment_run(base, segs[n]))
            &&& now.cells == before.cells + more.cells
            &&& now.cluster_map == before.cluster_map + more.cluster_map
            &&& now.glyph_advances == before.glyph_advances + more.glyph_advances
            &&& now.glyph_offsets == before.glyph_offsets + more.glyph_offsets
            &&& now.run_cell_spans.drop_last() == before.run_cell_spans
            &&& now.run_glyph_spans.drop_last() == before.run_glyph_spans
            &&& now.run_cluster_spans.drop_last() == before.run_cluster_spans
        }),
        ({
            let none = assembled(base, codepoints, cell_width, segs, glyphs, 0);
            &&& none.runs.len() == 0
            &&& none.cells.len() == 0
            &&& none.cluster_map.len() == 0
            &&& none.glyph_advances.len() == 0
            &&& none.glyph_offsets.len() == 0
        }),
{
    let before = assembled(base, codepoints, cell_width, segs, glyphs, n);
    let now = assembled(base, codepoints, cell_width, segs, glyphs, n + 1);
    assert(now.run_cell_spans.drop_last() =~= before.run_cell_spans);
    assert(now.run_glyph_spans.drop_last() =~= before.run_glyph_spans);
    assert(now.run_cluster_spans.drop_last() =~= before.run_cluster_spans);
}

/// Without text nothing is shaped, and text has to come with as many code points.
/// If the text cannot be analyzed that is the error; else it is that of the first
/// segment that got no glyphs, and without one each segment gives a run.
pub proof fn law_what_comes_of_shaping<
    A: Fn(usize) -> Result<(Vec<ScriptRun>, Vec<BidiRun>), u32>,
    F: Fn(TextSegment) -> Result<SegmentGlyphs, GlyphError>,
>(
    analyze: A,
    ask: F,
    base: TextRun,
    codepoints: Seq<Codepoint>,
    utf16: usize,
    cell_width: u32,
    shaped: Result<ShapedCells, ShapeError>,
    analysis: Result<(Vec<ScriptRun>, Vec<BidiRun>), u32>,
)
    requires
        shape_outcome(analyze, ask, base, codepoints, utf16, cell_width, shaped),
        codepoints.len() <= usize::MAX,
        forall|r: Result<(Vec<ScriptRun>, Vec<BidiRun>), u32>| #[trigger]
            analyze.ensures((utf16,), r) ==> r == analysis,
    ensures
        utf16 == 0 ==> (shaped matches Ok(out) && out@.runs.len() == 0 && out@.cells.len() == 0
            && out@.cluster_map.len() == 0 && out@.glyph_advances.len() == 0),
        utf16 > 0 && utf16 != codepoints.len() ==> (shaped matches Err(ShapeError::Mismatch {
            utf16: units,
            codepoints: points,
        }) && units == utf16 && points == codepoints.len()),
        utf16 > 0 && utf16 == codepoints.len() ==> match analysis {
            Err(code) => shaped == Err::<ShapedCells, ShapeError>(ShapeError::Analysis(code)),
            Ok(runs) => {
                let segs = segments_from(runs.0@, runs.1@, 0, 0);
                match shaped {
                    Ok(out) => {
                        &&& out@.runs.len() == segs.len()
                        &&& forall|i: int|
                            0 <= i < segs.len() ==> got_glyphs(ask, #[trigger] segs[i])
                    },
                    Err(ShapeError::Glyphs(error)) => exists|k: int|
                        0 <= k < segs.len() && ask.ensures((#[trigger] segs[k],), Err(error)) && (
                        forall|i: int| 0 <= i < k ==> got_glyphs(ask, #[trigger] segs[i])),
                    _ => false,
                }
            },
        },
{
    if utf16 > 0 && utf16 == codepoints.len() {
        if let Ok(runs) = analysis {
            let segs = segments_from(runs.0@, runs.1@, 0, 0);
            match shaped {
                Ok(out) => {
                    assert(segments_outcome(ask, base, codepoints, cell_width, segs, Ok(out)));
                    let glyphs = choose|glyphs: Seq<SegmentGlyphs>|
                        {
                            &&& #[trigger] asked(ask, segs, glyphs, glyphs.len() as int)
                            &&& glyphs.len() == segs.len()
                            &&& out@ == assembled(
                                base,
                                codepoints,
                                cell_width,
                                segs,
                                glyphs,
                                segs.len() as int,
                            )
                        };
                    lemma_run_count(base, codepoints, cell_width, segs, glyphs, segs.len() as int);
                    assert forall|i: int| 0 <= i < segs.len() implies got_glyphs(
                        ask,
                        #[trigger] segs[i],
                    ) by {
                        assert(ask.ensures((segs[i],), Ok(glyphs[i])));
                    }
                },
                Err(ShapeError::Glyphs(error)) => {
                    assert(segments_outcome(ask, base, codepoints, cell_width, segs, Err(error)));
                    let glyphs = choose|glyphs: Seq<SegmentGlyphs>|
                        {
                            &&& #[trigger] asked(ask, segs, glyphs, glyphs.len() as int)
                            &&& glyphs.len() < segs.len()
                            &&& ask.ensures((segs[glyphs.len() as int],), Err(error))
                        };
                    let k = glyphs.len() as int;
                    assert forall|i: int| 0 <= i < k implies got_glyphs(ask, #[trigger] segs[i]) by {
                        assert(ask.ensures((segs[i],), Ok(glyphs[i])));
                    }
                    assert(ask.ensures((segs[k],), Err(error)));
                },
                _ => {},
            }
        }
    }
}

/// The system can have given glyphs for a segment.
pub open spec fn got_glyphs<F: Fn(TextSegment) -> Result<SegmentGlyphs, GlyphError>>(
    ask: F,
    segment: TextSegment,
) -> bool {
    exists|glyphs: SegmentGlyphs| #[trigger] ask.ensures((segment,), Ok(glyphs))
}

proof fn lemma_run_count(
    base: TextRun,
    codepoints: Seq<Codepoint>,
    cell_width: u32,
    segs: Seq<TextSegment>,
    glyphs: Seq<SegmentGlyphs>,
    n: int,
)
    requires
        0 <= n,
    ensures
        assembled(base, codepoints, cell_width, segs, glyphs, n).runs.len() == n,
    decreases n,
{
    if n > 0 {
        lemma_run_count(base, codepoints, cell_width, segs, glyphs, n - 1);
    }
}

/// The room after so many attempts that failed: half as much again each time, and
/// never for less than eight glyphs more than there is text.
pub open spec fn room_after(cap: int, text_len: int, failed: int) -> int
    decreases failed,
{
    if failed <= 0 {
        cap
    } else {
        let before = room_after(cap, text_len, failed - 1);
        let half = if before + before / 2 > usize::MAX {
            usize::MAX as int
        } else {
            before + before / 2
        };
        if half < text_len + 8 {
            text_len + 8
        } else {
            half
        }
    }
}

proof fn lemma_room_shifts(cap: int, text_len: int, failed: int)
    requires
        0 <= failed,
    ensures
        room_after(room_after(cap, text_len, 1), text_len, failed) == room_after(
            cap,
            text_len,
            failed + 1,
        ),
    decreases failed,
{
    reveal_with_fuel(room_after, 2);
    if failed > 0 {
        lemma_room_shifts(cap, text_len, failed - 1);
    }
}

proof fn lemma_attempts<G: Fn(usize) -> Option<u32>, R: Fn(usize) -> Result<usize, u32>>(
    attempt: G,
    reserve: R,
    text_len: usize,
    cap: usize,
    left: int,
    count: Result<u32, GlyphError>,
    need: int,
    glyphs: u32,
)
    requires
        text_len + 8 <= usize::MAX,
        0 <= left,
        attempts_outcome(attempt, reserve, text_len, cap, left, count),
        forall|n: usize, r: Option<u32>| #[trigger]
            attempt.ensures((n,), r) ==> r == if n >= need {
                Some(glyphs)
            } else {
                None
            },
        forall|n: usize, r: Result<usize, u32>| #[trigger]
            reserve.ensures((n,), r) ==> r == Ok::<usize, u32>(n),
    ensures
        (exists|k: int| 0 <= k < left && #[trigger] room_after(cap as int, text_len as int, k) >= need)
            ==> count == Ok::<u32, GlyphError>(glyphs),
        (forall|k: int| 0 <= k < left ==> #[trigger] room_after(cap as int, text_len as int, k) < need)
            ==> count == Err::<u32, GlyphError>(GlyphError::TooManyAttempts),
    decreases left,
{
    let c = cap as int;
    let t = text_len as int;
    assert(room_after(c, t, 0) == c);
    if left > 0 && c < need {
        assert(attempt.ensures((cap,), None));
        let more = roomier(cap, text_len) as usize;
        assert(room_after(c, t, 1) == more) by {
            reveal_with_fuel(room_after, 2);
        }
        lemma_attempts(attempt, reserve, text_len, more, left - 1, count, need, glyphs);
        if exists|k: int| 0 <= k < left && #[trigger] room_after(c, t, k) >= need {
            let k = choose|k: int| 0 <= k < left && #[trigger] room_after(c, t, k) >= need;
            lemma_room_shifts(c, t, k - 1);
            assert(room_after(more as int, t, k - 1) >= need);
        } else {
            assert forall|k: int| 0 <= k < left - 1 implies #[trigger] room_after(more as int, t, k)
                < need by {
                lemma_room_shifts(c, t, k);
                assert(room_after(c, t, k + 1) < need);
            }
        }
    }
}

/// Glyphs are asked for up to eight times, with more room each time. If the room
/// suffices in time they are placed; else there were too many attempts. Text that is
/// simple through and through is not asked for, unless there are font features.
pub proof fn law_how_glyphs_are_got<
    C: Fn(usize) -> Result<(bool, u32, Vec<u16>), u32>,
    G: Fn(usize) -> Option<u32>,
    R: Fn(usize) -> Result<usize, u32>,
    P: Fn(u32) -> Result<SegmentGlyphs, u32>,
>(
    complexity: C,
    attempt: G,
    reserve: R,
    place: P,
    has_features: bool,
    text_len: usize,
    cap: usize,
    out: Result<SegmentGlyphs, GlyphError>,
    answer: Result<(bool, u32, Vec<u16>), u32>,
    need: int,
    count: u32,
    placed: Result<SegmentGlyphs, u32>,
)
    requires
        text_len + 8 <= usize::MAX,
        glyphs_outcome(complexity, attempt, reserve, place, has_features, text_len, cap, out),
        forall|r: Result<(bool, u32, Vec<u16>), u32>| #[trigger]
            complexity.ensures((text_len,), r) ==> r == answer,
        forall|n: usize, r: Option<u32>| #[trigger]
            attempt.ensures((n,), r) ==> r == if n >= need {
                Some(count)
            } else {
                None
            },
        forall|n: usize, r: Result<usize, u32>| #[trigger]
            reserve.ensures((n,), r) ==> r == Ok::<usize, u32>(n),
        forall|r: Result<SegmentGlyphs, u32>| #[trigger] place.ensures((count,), r) ==> r == placed,
    ensures
        ({
            let simple = !has_features && answer is Ok && answer->Ok_0.0 && answer->Ok_0.1
                == text_len;
            let refused = !has_features && answer is Err;
            let in_time = exists|k: int|
                0 <= k < 8 && #[trigger] room_after(cap as int, text_len as int, k) >= need;
            &&& refused ==> out == Err::<SegmentGlyphs, GlyphError>(
                GlyphError::System(answer->Err_0),
            )
            &&& simple ==> out == Ok::<SegmentGlyphs, GlyphError>(
                SegmentGlyphs::Simple { indices: answer->Ok_0.2 },
            )
            &&& !refused && !simple && in_time ==> out == match placed {
                Ok(glyphs) => Ok::<SegmentGlyphs, GlyphError>(glyphs),
                Err(code) => Err(GlyphError::System(code)),
            }
            &&& !refused && !simple && !in_time ==> out == Err::<SegmentGlyphs, GlyphError>(
                GlyphError::TooManyAttempts,
            )
        }),
{
    let simple = !has_features && answer is Ok && answer->Ok_0.0 && answer->Ok_0.1 == text_len;
    let refused = !has_features && answer is Err;
    if !refused && !simple {
        let tried = choose|c: Result<u32, GlyphError>|
            {
                &&& #[trigger] attempts_outcome(attempt, reserve, text_len, cap, 8, c)
                &&& match c {
                    Err(error) => out == Err::<SegmentGlyphs, GlyphError>(error),
                    Ok(n) => match out {
                        Ok(placed) => place.ensures((n,), Ok(placed)),
                        Err(GlyphError::System(code)) => place.ensures((n,), Err(code)),
                        Err(GlyphError::TooManyAttempts) => false,
                    },
                }
            };
        assert(attempts_outcome(attempt, reserve, text_len, cap, 8, tried));
        lemma_attempts(attempt, reserve, text_len, cap, 8, tried, need, count);
        if !(exists|k: int|
            0 <= k < 8 && #[trigger] room_after(cap as int, text_len as int, k) >= need) {
            assert forall|k: int| 0 <= k < 8 implies #[trigger] room_after(
                cap as int,
                text_len as int,
                k,
            ) < need by {}
        }
    }
}

/// A request for the output asks for what is in use and for what comes; afterwards
/// just that is in use. There is one cluster more than units of text.
pub proof fn law_room_is_what_is_used(used: OutputUsed, text_len: int, glyphs: int)
    requires
        0 <= text_len,
        0 <= glyphs,
        used.cells + glyphs <= usize::MAX,
        used.glyph + glyphs <= usize::MAX,
        used.cluster + text_len + 1 <= usize::MAX,
    ensures
        ({
            let asked = output_need(used, glyphs, glyphs, text_len + 1, 0);
            let after = used_after(used, text_len, glyphs);
            &&& asked.cells == after.cells == used.cells + glyphs
            &&& asked.glyph == after.glyph == used.glyph + glyphs
            &&& asked.cluster == after.cluster == used.cluster + text_len + 1
            &&& asked.runs == after.runs == used.runs
            &&& asked.spans == after.spans == used.spans
        }),
        nothing_used().cells == 0 && nothing_used().glyph == 0 && nothing_used().cluster == 0
            && nothing_used().runs == 0 && nothing_used().spans == 0,
{
}

/// The room that is made ahead: for half as many glyphs again as there is text, and
/// sixteen, and for a script and a level at each unit, one of each at least. A run
/// more takes a place among the runs and one among the spans.
pub proof fn law_room_ahead(used: OutputUsed, text_len: usize, glyphs: usize, runs: int)
    requires
        text_len * 3 <= usize::MAX,
        0 <= runs,
        used.runs + runs <= usize::MAX,
        used.spans + runs <= usize::MAX,
    ensures
        3 * text_len + 31 <= 2 * expected_glyphs(text_len) <= 3 * text_len + 32,
        output_need(used, 0, 0, 0, runs).runs == used.runs + runs,
        output_need(used, 0, 0, 0, runs).spans == used.spans + runs,
        scratch_need(text_len as int, glyphs as int).text == text_len,
        scratch_need(text_len as int, glyphs as int).glyph == glyphs,
        text_len > 0 ==> scratch_need(text_len as int, glyphs as int).script_runs == text_len && scratch_need(
            text_len as int,
            glyphs as int,
        ).bidi_runs == text_len,
        scratch_need(0, glyphs as int).script_runs == 1 && scratch_need(0, glyphs as int).bidi_runs == 1,
{
}

/// Runs that are added one after the other follow each other in the output, each as
/// long as what was added for it.
pub proof fn law_runs_follow_each_other(a: OutputUsed, b: OutputUsed, c: OutputUsed)
    requires
        a.cells <= b.cells <= c.cells <= u32::MAX,
        a.glyph <= b.glyph <= c.glyph <= u32::MAX,
        a.cluster <= b.cluster <= c.cluster <= u32::MAX,
    ensures
        spans_since(a, b).1 == spans_since(b, c).0,
        spans_since(a, b).3 == spans_since(b, c).2,
        spans_since(a, b).5 == spans_since(b, c).4,
        spans_since(a, b).1 - spans_since(a, b).0 == b.cells - a.cells,
        spans_since(a, b).3 - spans_since(a, b).2 == b.glyph - a.glyph,
        spans_since(a, b).5 - spans_since(a, b).4 == b.cluster - a.cluster,
        spans_since(nothing_used(), b).0 == 0 && spans_since(nothing_used(), b).2 == 0
            && spans_since(nothing_used(), b).4 == 0,
{
}

/// A style has the face that its family gives; if it gives none, that of Consolas,
/// unless the family is that one, however it is written. A blank family has none.
pub proof fn law_face_of_a_style<F: Fn(bool, Style, &str) -> Option<u64>>(
    lookup: F,
    refreshed: bool,
    style: Style,
    family: &str,
    face: Result<u64, FaceError>,
    own: Option<u64>,
    other: Option<u64>,
)
    requires
        style_outcome(lookup, refreshed, style, family, face),
        forall|r: Option<u64>| #[trigger] lookup.ensures((refreshed, style, family), r) ==> r == own,
        !same_but_case(family@, "Consolas"@) ==> forall|r: Option<u64>| #[trigger]
            lookup.ensures((refreshed, style, "Consolas"), r) ==> r == other,
    ensures
        trimmed(family@).len() == 0 ==> face == Err::<u64, FaceError>(FaceError::EmptyFamily),
        trimmed(family@).len() > 0 ==> face == match own {
            Some(face) => Ok::<u64, FaceError>(face),
            None => if same_but_case(family@, "Consolas"@) {
                Err(FaceError::NoFace)
            } else {
                match other {
                    Some(face) => Ok(face),
                    None => Err(FaceError::NoFace),
                }
            },
        },
{
}

/// The four requests are for the styles normal, bold, italic and both, in this
/// order; the error is that of the first style without a face.
pub proof fn law_faces_of_the_styles<F: Fn(bool, Style, &str) -> Option<u64>>(
    lookup: F,
    refreshed: bool,
    requests: [StyleVariationRequest<'_>; 4],
    faces: Result<[u64; 4], StyleError>,
)
    requires
        faces_outcome(lookup, refreshed, requests, faces),
    ensures
        match faces {
            Ok(faces) => {
                &&& style_outcome(lookup, refreshed, Style::Normal, requests@[0].family, Ok(faces@[0]))
                &&& style_outcome(lookup, refreshed, Style::Bold, requests@[1].family, Ok(faces@[1]))
                &&& style_outcome(lookup, refreshed, Style::Italic, requests@[2].family, Ok(faces@[2]))
                &&& style_outcome(
                    lookup,
                    refreshed,
                    Style::BoldItalic,
                    requests@[3].family,
                    Ok(faces@[3]),
                )
            },
            Err(error) => {
                let family = match error.style {
                    Style::Normal => requests@[0].family,
                    Style::Bold => requests@[1].family,
                    Style::Italic => requests@[2].family,
                    Style::BoldItalic => requests@[3].family,
                };
                &&& style_outcome(lookup, refreshed, error.style, family, Err(error.error))
                &&& !(error.style is Normal) ==> style_has_face(
                    lookup,
                    refreshed,
                    Style::Normal,
                    requests@[0].family,
                )
                &&& error.style is Italic || error.style is BoldItalic ==> style_has_face(
                    lookup,
                    refreshed,
                    Style::Bold,
                    requests@[1].family,
                )
                &&& error.style is BoldItalic ==> style_has_face(
                    lookup,
                    refreshed,
                    Style::Italic,
                    requests@[2].family,
                )
            },
        },
{
    if let Ok(found) = faces {
        assert(requests@[0].family == requests@[0].family);
        assert(requests@[1].family == requests@[1].family);
        assert(requests@[2].family == requests@[2].family);
        assert(requests@[3].family == requests@[3].family);
    } else if let Err(error) = faces {
        let n = choose|n: int|
            {
                &&& 0 <= n < 4
                &&& error.style == Style::of_rank(n)
                &&& style_outcome(
                    lookup,
                    refreshed,
                    error.style,
                    #[trigger] requests@[n].family,
                    Err(error.error),
                )
                &&& forall|i: int|
                    0 <= i < n ==> style_has_face(
                        lookup,
                        refreshed,
                        Style::of_rank(i),
                        #[trigger] requests@[i].family,
                    )
            };
        assert(requests@[0].family == requests@[0].family);
        assert(requests@[1].family == requests@[1].family);
        assert(requests@[2].family == requests@[2].family);
    }
}

/// The fonts as they are known come first; a refreshed collection is looked at only
/// if a style had no face in them, and then it decides alone.
pub proof fn law_refreshed_fonts_come_second<F: Fn(bool, Style, &str) -> Option<u64>>(
    lookup: F,
    requests: [StyleVariationRequest<'_>; 4],
    faces: Result<[u64; 4], StyleError>,
)
    requires
        primary_outcome(lookup, requests, faces),
    ensures
        (forall|r: Result<[u64; 4], StyleError>| #[trigger]
            faces_outcome(lookup, false, requests, r) ==> r is Ok) ==> faces is Ok
            && faces_outcome(lookup, false, requests, faces),
        (forall|r: Result<[u64; 4], StyleError>| #[trigger]
            faces_outcome(lookup, false, requests, r) ==> r is Err) ==> faces_outcome(
            lookup,
            true,
            requests,
            faces,
        ),
{
}

/// An analysis that fits has segments that lie within the text and whose runs begin
/// within the row; nothing in it ends beyond the numbers of text positions.
pub proof fn law_analysis_that_fits(
    base: TextRun,
    runs: (Vec<ScriptRun>, Vec<BidiRun>),
    text_len: int,
)
    ensures
        analysis_fits(base, runs, text_len) <==> {
            let segs = segments_from(runs.0@, runs.1@, 0, 0);
            &&& forall|i: int|
                0 <= i < runs.0@.len() ==> (#[trigger] runs.0@[i]).text_position
                    + runs.0@[i].text_length <= 0xffff_ffff
            &&& forall|i: int|
                0 <= i < runs.1@.len() ==> (#[trigger] runs.1@[i]).text_position
                    + runs.1@[i].text_length <= 0xffff_ffff
            &&& forall|k: int|
                #![trigger segs[k]]
                0 <= k < segs.len() ==> segs[k].start + segs[k].len <= text_len && base.offset + (
                segs[k].start as u16) <= 0xffff
        },
{
    let segs = segments_from(runs.0@, runs.1@, 0, 0);
    if forall|k: int|
        #![trigger segs[k]]
        0 <= k < segs.len() ==> segs[k].start + segs[k].len <= text_len && base.offset + (
        segs[k].start as u16) <= 0xffff {
        assert(crate::font::backend::shape::segments_within(segs, text_len));
        assert(crate::font::backend::shape::offsets_fit(base, segs));
    }
    if forall|i: int|
        0 <= i < runs.0@.len() ==> (#[trigger] runs.0@[i]).text_position + runs.0@[i].text_length
            <= 0xffff_ffff {
        assert forall|i: int| 0 <= i < runs.0@.len() implies crate::font::backend::segments::script_end(
            #[trigger] runs.0@[i],
        ) <= u32::MAX by {}
    }
    if forall|i: int|
        0 <= i < runs.1@.len() ==> (#[trigger] runs.1@[i]).text_position + runs.1@[i].text_length
            <= 0xffff_ffff {
        assert forall|i: int| 0 <= i < runs.1@.len() implies crate::font::backend::segments::bidi_end(
            #[trigger] runs.1@[i],
        ) <= u32::MAX by {}
    }
}

} // verus!
