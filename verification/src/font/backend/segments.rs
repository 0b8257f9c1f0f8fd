//! Segments of a run: stretches of one script and one direction.
//!
//! Text analysis reports stretches of one script and stretches of one
//! embedding level. Where the two meet, the run is cut into segments, which
//! are shaped one by one.
use crate::font::types::{BidiRun, ScriptRun, TextRun};
use vstd::prelude::*;

verus! {

/// Script stretches as they are reported, up to a number of them.
pub struct ScriptSink {
    runs: Vec<ScriptRun>,
    cap: usize,
}

impl View for ScriptSink {
    type V = Seq<ScriptRun>;

    closed spec fn view(&self) -> Seq<ScriptRun> {
        self.runs@
    }
}

impl ScriptSink {
    /// How many stretches are kept.
    pub closed spec fn room(&self) -> usize {
        self.cap
    }

    pub fn new(cap: usize) -> (sink: ScriptSink)
        ensures
            sink@.len() == 0,
            sink.room() == cap,
    {
        ScriptSink { runs: Vec::new(), cap }
    }

    /// Keeps a stretch if there is room for it.
    pub fn push_script(&mut self, run: ScriptRun)
        ensures
            final(self).room() == old(self).room(),
            final(self)@ == if old(self)@.len() < old(self).room() {
                old(self)@.push(run)
            } else {
                old(self)@
            },
    {
        if self.runs.len() < self.cap {
            self.runs.push(run);
        }
    }

    /// The stretches, or one over the whole text if none was reported.
    pub fn finish(self, text_len: u32) -> (runs: Vec<ScriptRun>)
        ensures
            runs@ == if self@.len() == 0 {
                seq![
                    ScriptRun { text_position: 0, text_length: text_len, script: 0, shapes: 0 },
                ]
            } else {
                self@
            },
    {
        let mut runs = self.runs;
        if runs.len() == 0 {
            runs.push(ScriptRun { text_position: 0, text_length: text_len, script: 0, shapes: 0 });
            assert(runs@ =~= seq![
                ScriptRun { text_position: 0, text_length: text_len, script: 0, shapes: 0 },
            ]);
        }
        runs
    }
}

/// Embedding levels as they are reported, up to a number of them.
pub struct BidiSink {
    runs: Vec<BidiRun>,
    cap: usize,
}

impl View for BidiSink {
    type V = Seq<BidiRun>;

    closed spec fn view(&self) -> Seq<BidiRun> {
        self.runs@
    }
}

impl BidiSink {
    /// How many stretches are kept.
    pub closed spec fn room(&self) -> usize {
        self.cap
    }

    pub fn new(cap: usize) -> (sink: BidiSink)
        ensures
            sink@.len() == 0,
            sink.room() == cap,
    {
        BidiSink { runs: Vec::new(), cap }
    }

    /// Keeps a stretch if there is room for it.
    pub fn push_bidi(&mut self, run: BidiRun)
        ensures
            final(self).room() == old(self).room(),
            final(self)@ == if old(self)@.len() < old(self).room() {
                old(self)@.push(run)
            } else {
                old(self)@
            },
    {
        if self.runs.len() < self.cap {
            self.runs.push(run);
        }
    }

    /// The stretches, or one over the whole text, left to right, if none was
    /// reported.
    pub fn finish(self, text_len: u32) -> (runs: Vec<BidiRun>)
        ensures
            runs@ == if self@.len() == 0 {
                seq![BidiRun { text_position: 0, text_length: text_len, resolved_level: 0 }]
            } else {
                self@
            },
    {
        let mut runs = self.runs;
        if runs.len() == 0 {
            runs.push(BidiRun { text_position: 0, text_length: text_len, resolved_level: 0 });
            assert(runs@ =~= seq![
                BidiRun { text_position: 0, text_length: text_len, resolved_level: 0 },
            ]);
        }
        runs
    }
}

/// A stretch of text that is shaped at once.
#[derive(Clone, Copy, Debug, PartialEq, Eq, Structural)]
pub struct TextSegment {
    /// First UTF-16 unit.
    pub start: u32,
    /// UTF-16 units.
    pub len: u32,
    /// Script number of the analysis.
    pub script: u16,
    /// Shaping flags of the analysis.
    pub shapes: i32,
    /// Whether the text goes from right to left.
    pub rtl: bool,
}

pub open spec fn script_end(run: ScriptRun) -> int {
    run.text_position + run.text_length
}

pub open spec fn bidi_end(run: BidiRun) -> int {
    run.text_position + run.text_length
}

pub open spec fn later(a: int, b: int) -> int {
    if a < b {
        b
    } else {
        a
    }
}

pub open spec fn sooner(a: int, b: int) -> int {
    if a < b {
        a
    } else {
        b
    }
}

/// The segment in which two stretches meet. Odd levels go from right to left.
pub open spec fn overlap(script: ScriptRun, bidi: BidiRun) -> Seq<TextSegment> {
    let start = later(script.text_position as int, bidi.text_position as int);
    let end = sooner(script_end(script), bidi_end(bidi));
    if start < end {
        seq![
            TextSegment {
                start: start as u32,
                len: (end - start) as u32,
                script: script.script,
                shapes: script.shapes,
                rtl: bidi.resolved_level % 2 == 1,
            },
        ]
    } else {
        Seq::empty()
    }
}

/// The segments from script stretch `s` and level `b` on. Whichever of the two
/// ends first makes way for its successor.
pub open spec fn segments_from(
    scripts: Seq<ScriptRun>,
    bidis: Seq<BidiRun>,
    s: int,
    b: int,
) -> Seq<TextSegment>
    decreases scripts.len() - s + bidis.len() - b,
{
    if 0 <= s < scripts.len() && 0 <= b < bidis.len() {
        overlap(scripts[s], bidis[b]) + if script_end(scripts[s]) <= bidi_end(bidis[b]) {
            segments_from(scripts, bidis, s + 1, b)
        } else {
            segments_from(scripts, bidis, s, b + 1)
        }
    } else {
        Seq::empty()
    }
}

/// Every stretch ends within the numbers of text positions.
pub open spec fn ends_fit(scripts: Seq<ScriptRun>, bidis: Seq<BidiRun>) -> bool {
    &&& forall|i: int| 0 <= i < scripts.len() ==> script_end(#[trigger] scripts[i]) <= u32::MAX
    &&& forall|i: int| 0 <= i < bidis.len() ==> bidi_end(#[trigger] bidis[i]) <= u32::MAX
}

/// Cuts the text into segments.
pub fn segments(scripts: &Vec<ScriptRun>, bidis: &Vec<BidiRun>) -> (out: Vec<TextSegment>)
    requires
        ends_fit(scripts@, bidis@),
    ensures
        out@ == segments_from(scripts@, bidis@, 0, 0),
{
    let mut out: Vec<TextSegment> = Vec::new();
    let mut s: usize = 0;
    let mut b: usize = 0;
    assert(out@ + segments_from(scripts@, bidis@, 0, 0) =~= segments_from(
        scripts@,
        bidis@,
        0,
        0,
    ));
    while s < scripts.len() && b < bidis.len()
        invariant
            s <= scripts.len(),
            b <= bidis.len(),
            ends_fit(scripts@, bidis@),
            out@ + segments_from(scripts@, bidis@, s as int, b as int) == segments_from(
                scripts@,
                bidis@,
                0,
                0,
            ),
        decreases scripts.len() - s + bidis.len() - b,
    {
        let script = scripts[s];
        let bidi = bidis[b];
        let ghost before = out@;
        let ghost rest = if script_end(script) <= bidi_end(bidi) {
            segments_from(scripts@, bidis@, s + 1, b as int)
        } else {
            segments_from(scripts@, bidis@, s as int, b + 1)
        };
        assert(script == scripts@[s as int] && bidi == bidis@[b as int]);
        let s_start: u32 = script.text_position;
        let s_end: u32 = script.text_position + script.text_length;
        let b_start: u32 = bidi.text_position;
        let b_end: u32 = bidi.text_position + bidi.text_length;
        let start: u32 = if s_start < b_start {
            b_start
        } else {
            s_start
        };
        let end: u32 = if s_end < b_end {
            s_end
        } else {
            b_end
        };
        if start < end {
            out.push(
                TextSegment {
                    start,
                    len: end - start,
                    script: script.script,
                    shapes: script.shapes,
                    rtl: bidi.resolved_level % 2 == 1,
                },
            );
        }
        assert(out@ =~= before + overlap(script, bidi));
        assert(out@ + rest =~= before + (overlap(script, bidi) + rest));
        if s_end <= b_end {
            s += 1;
        } else {
            b += 1;
        }
    }
    assert(out@ + segments_from(scripts@, bidis@, s as int, b as int) =~= out@);
    out
}

/// The script stretches follow each other from the first unit to the last.
pub open spec fn scripts_tile(scripts: Seq<ScriptRun>, text_len: int) -> bool {
    &&& scripts.len() > 0
    &&& scripts[0].text_position == 0
    &&& script_end(scripts.last()) == text_len
    &&& forall|i: int, j: int|
        #![trigger scripts[i], scripts[j]]
        0 <= i && j == i + 1 && j < scripts.len() ==> scripts[j].text_position == script_end(
            scripts[i],
        )
}

/// The levels follow each other from the first unit to the last.
pub open spec fn bidis_tile(bidis: Seq<BidiRun>, text_len: int) -> bool {
    &&& bidis.len() > 0
    &&& bidis[0].text_position == 0
    &&& bidi_end(bidis.last()) == text_len
    &&& forall|i: int, j: int|
        #![trigger bidis[i], bidis[j]]
        0 <= i && j == i + 1 && j < bidis.len() ==> bidis[j].text_position == bidi_end(bidis[i])
}

/// The segments follow each other from `from` to `to`, none of them empty.
pub open spec fn segments_tile(segments: Seq<TextSegment>, from: int, to: int) -> bool
    decreases segments.len(),
{
    if segments.len() == 0 {
        from == to
    } else {
        &&& segments[0].start == from
        &&& segments[0].len > 0
        &&& segments_tile(segments.drop_first(), from + segments[0].len, to)
    }
}

proof fn lemma_script_ends_rise(scripts: Seq<ScriptRun>, text_len: int, i: int)
    requires
        scripts_tile(scripts, text_len),
        0 <= i < scripts.len(),
    ensures
        script_end(scripts[i]) <= text_len,
    decreases scripts.len() - i,
{
    if i + 1 < scripts.len() {
        lemma_script_ends_rise(scripts, text_len, i + 1);
        assert(scripts[i + 1].text_position == script_end(scripts[i]));
    }
}

proof fn lemma_bidi_ends_rise(bidis: Seq<BidiRun>, text_len: int, i: int)
    requires
        bidis_tile(bidis, text_len),
        0 <= i < bidis.len(),
    ensures
        bidi_end(bidis[i]) <= text_len,
    decreases bidis.len() - i,
{
    if i + 1 < bidis.len() {
        lemma_bidi_ends_rise(bidis, text_len, i + 1);
        assert(bidis[i + 1].text_position == bidi_end(bidis[i]));
    }
}

proof fn lemma_segments_tile(
    scripts: Seq<ScriptRun>,
    bidis: Seq<BidiRun>,
    text_len: int,
    s: int,
    b: int,
    at: int,
)
    requires
        text_len <= u32::MAX,
        scripts_tile(scripts, text_len),
        bidis_tile(bidis, text_len),
        0 <= s < scripts.len(),
        0 <= b < bidis.len(),
        at == later(scripts[s].text_position as int, bidis[b].text_position as int),
        at <= script_end(scripts[s]),
        at <= bidi_end(bidis[b]),
    ensures
        segments_tile(segments_from(scripts, bidis, s, b), at, text_len),
    decreases scripts.len() - s + bidis.len() - b,
{
    let end = sooner(script_end(scripts[s]), bidi_end(bidis[b]));
    lemma_script_ends_rise(scripts, text_len, s);
    lemma_bidi_ends_rise(bidis, text_len, b);
    let rest = if script_end(scripts[s]) <= bidi_end(bidis[b]) {
        segments_from(scripts, bidis, s + 1, b)
    } else {
        segments_from(scripts, bidis, s, b + 1)
    };
    if script_end(scripts[s]) <= bidi_end(bidis[b]) {
        if s + 1 < scripts.len() {
            assert(scripts[s + 1].text_position == script_end(scripts[s]));
            lemma_segments_tile(scripts, bidis, text_len, s + 1, b, end);
        } else {
            assert(scripts[s] == scripts.last());
        }
    } else {
        if b + 1 < bidis.len() {
            assert(bidis[b + 1].text_position == bidi_end(bidis[b]));
            lemma_segments_tile(scripts, bidis, text_len, s, b + 1, end);
        } else {
            assert(bidis[b] == bidis.last());
        }
    }
    assert(segments_tile(rest, end, text_len));
    let all = segments_from(scripts, bidis, s, b);
    if at < end {
        assert(all[0] == overlap(scripts[s], bidis[b])[0]);
        assert(all[0].start == at && at + all[0].len == end);
        assert(all.drop_first() =~= rest);
    } else {
        assert(all =~= rest);
    }
}

/// Where the script stretches cover the text and the levels do, the segments
/// do: they follow each other from the first unit to the last.
pub proof fn law_segments_cover_the_text(
    scripts: Seq<ScriptRun>,
    bidis: Seq<BidiRun>,
    text_len: u32,
)
    requires
        scripts_tile(scripts, text_len as int),
        bidis_tile(bidis, text_len as int),
    ensures
        segments_tile(segments_from(scripts, bidis, 0, 0), 0, text_len as int),
{
    lemma_segments_tile(scripts, bidis, text_len as int, 0, 0, 0);
}

/// The run of a segment: its place in the row follows from that of the whole
/// run.
pub open spec fn segment_run(base: TextRun, segment: TextSegment) -> TextRun {
    TextRun {
        hash: base.hash,
        offset: (base.offset + (segment.start as u16)) as u16,
        cells: segment.len as u16,
        font_index: base.font_index,
    }
}

pub fn run_of_segment(base: TextRun, segment: TextSegment) -> (run: TextRun)
    requires
        base.offset + (segment.start as u16) <= u16::MAX,
    ensures
        run == segment_run(base, segment),
{
    TextRun {
        hash: base.hash,
        offset: base.offset + segment.start as u16,
        cells: segment.len as u16,
        font_index: base.font_index,
    }
}

/// The part of a text of `text_len` units that begins at `position`, as its
/// first unit and its length. A position behind the end counts as the end.
pub fn text_at_position(text_len: u32, position: u32) -> (part: (u32, u32))
    ensures
        part.0 == sooner(position as int, text_len as int),
        part.1 == text_len - part.0,
{
    let at: u32 = if position < text_len {
        position
    } else {
        text_len
    };
    (at, text_len - at)
}

/// The length of the part that ends before `position`.
pub fn text_before_position(text_len: u32, position: u32) -> (len: u32)
    ensures
        len == sooner(position as int, text_len as int),
{
    if position < text_len {
        position
    } else {
        text_len
    }
}

/// Over how many units number substitution holds from `position` on: over the
/// rest of the text, if there is a substitution.
pub fn substitution_length(text_len: u32, position: u32, has_substitution: bool) -> (len: u32)
    ensures
        len == if has_substitution {
            text_len - sooner(position as int, text_len as int)
        } else {
            0
        },
{
    if has_substitution {
        text_at_position(text_len, position).1
    } else {
        0
    }
}

/// The later of two places is no less than either, the sooner no more, and each is
/// one of them.
pub proof fn law_later_and_sooner(a: int, b: int)
    ensures
        a <= later(a, b) && b <= later(a, b) && (later(a, b) == a || later(a, b) == b),
        sooner(a, b) <= a && sooner(a, b) <= b && (sooner(a, b) == a || sooner(a, b) == b),
{
}

} // verus!
