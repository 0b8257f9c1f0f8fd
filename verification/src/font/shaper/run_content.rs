//! What a run holds, cell by cell, and where it has to end.
#[allow(unused_imports)]
use crate::font::collection::FontNeed;
#[allow(unused_imports)]
use crate::font::shaper::run_iter::{
    cell_content, color_word, comparable, content_entries, content_units, font_of, grapheme_content,
    law_cells_before_the_stop_are_collected, law_runs_are_maximal, shown_scalar, variant_of,
    Codepoint, Extent, FontInfo, RowModel,
};
#[allow(unused_imports)]
use crate::font::shared_grid::{grapheme_point, GridModel};
#[allow(unused_imports)]
use crate::font::types::{FontIndex, Presentation, Style};
#[allow(unused_imports)]
use crate::ghostty::types::{CellStyle, RawCell};
#[allow(unused_imports)]
use crate::text::utf16_units;
use vstd::prelude::*;

verus! {

/// The code points of a run's content that belong to a cluster, in order.
pub open spec fn points_at(content: Seq<(u32, u32)>, cluster: int) -> Seq<u32>
    decreases content.len(),
{
    if content.len() == 0 {
        Seq::empty()
    } else {
        let before = points_at(content.drop_last(), cluster);
        if content.last().1 == cluster {
            before.push(content.last().0)
        } else {
            before
        }
    }
}

proof fn lemma_points_of_both(a: Seq<(u32, u32)>, b: Seq<(u32, u32)>, cluster: int)
    ensures
        points_at(a + b, cluster) == points_at(a, cluster) + points_at(b, cluster),
    decreases b.len(),
{
    if b.len() == 0 {
        assert(a + b =~= a);
        assert(points_at(a, cluster) + points_at(b, cluster) =~= points_at(a, cluster));
    } else {
        lemma_points_of_both(a, b.drop_last(), cluster);
        assert((a + b).drop_last() =~= a + b.drop_last());
        assert(points_at(a + b, cluster) =~= points_at(a, cluster) + points_at(b, cluster));
    }
}

proof fn lemma_points_elsewhere(content: Seq<(u32, u32)>, cluster: int)
    requires
        forall|k: int| 0 <= k < content.len() ==> (#[trigger] content[k]).1 != cluster,
    ensures
        points_at(content, cluster) == Seq::<u32>::empty(),
    decreases content.len(),
{
    if content.len() > 0 {
        assert(content[content.len() - 1].1 != cluster);
        assert forall|k: int| 0 <= k < content.len() - 1 implies (
        #[trigger] content.drop_last()[k]).1 != cluster by {
            assert(content[k].1 != cluster);
        }
        lemma_points_elsewhere(content.drop_last(), cluster);
    }
}

proof fn lemma_grapheme_clusters(grapheme: Seq<u32>, cluster: u32, i: int)
    requires
        0 <= i,
    ensures
        forall|k: int|
            0 <= k < grapheme_content(grapheme, cluster, i).len() ==> (#[trigger] grapheme_content(
                grapheme,
                cluster,
                i,
            )[k]).1 == cluster,
    decreases grapheme.len() - i,
{
    if i < grapheme.len() {
        lemma_grapheme_clusters(grapheme, cluster, i + 1);
        let rest = grapheme_content(grapheme, cluster, i + 1);
        let all = grapheme_content(grapheme, cluster, i);
        assert forall|k: int| 0 <= k < all.len() implies (#[trigger] all[k]).1 == cluster by {
            if all.len() == rest.len() {
                assert(all[k] == rest[k]);
            } else if k > 0 {
                assert(all[k] == rest[k - 1]);
            }
        }
    }
}

/// Whether a code point stands in a run's content: the presentation selectors
/// do not.
pub open spec fn is_kept(point: u32) -> bool {
    point != 0xfe0e && point != 0xfe0f
}

proof fn lemma_grapheme_from_the_end(grapheme: Seq<u32>, cluster: u32, i: int)
    requires
        0 <= i < grapheme.len(),
    ensures
        grapheme_content(grapheme, cluster, i) == grapheme_content(
            grapheme.drop_last(),
            cluster,
            i,
        ) + if is_kept(grapheme_point(grapheme.last())) {
            seq![(grapheme_point(grapheme.last()), cluster)]
        } else {
            Seq::empty()
        },
    decreases grapheme.len() - i,
{
    let short = grapheme.drop_last();
    let tail = if is_kept(grapheme_point(grapheme.last())) {
        seq![(grapheme_point(grapheme.last()), cluster)]
    } else {
        Seq::<(u32, u32)>::empty()
    };
    if i + 1 < grapheme.len() {
        lemma_grapheme_from_the_end(grapheme, cluster, i + 1);
        assert(short[i] == grapheme[i]);
        assert(grapheme_content(grapheme, cluster, i) =~= grapheme_content(short, cluster, i)
            + tail);
    } else {
        assert(grapheme_content(grapheme, cluster, i + 1) =~= Seq::<(u32, u32)>::empty());
        assert(grapheme_content(grapheme, cluster, i) =~= grapheme_content(short, cluster, i)
            + tail);
    }
}

proof fn lemma_grapheme_points(grapheme: Seq<u32>, cluster: u32)
    ensures
        points_at(grapheme_content(grapheme, cluster, 0), cluster as int) == grapheme.map_values(
            |word: u32| (word % 0x20_0000) as u32,
        ).filter(|point: u32| point != 0xfe0e && point != 0xfe0f),
    decreases grapheme.len(),
{
    reveal(Seq::filter);
    let words = |word: u32| (word % 0x20_0000) as u32;
    let kept = |point: u32| point != 0xfe0e && point != 0xfe0f;
    let mapped = grapheme.map_values(words);
    if grapheme.len() == 0 {
        assert(mapped.filter(kept) =~= Seq::<u32>::empty());
    } else {
        let short = grapheme.drop_last();
        lemma_grapheme_points(short, cluster);
        lemma_grapheme_from_the_end(grapheme, cluster, 0);
        assert(mapped.drop_last() =~= short.map_values(words));
        let point = grapheme_point(grapheme.last());
        assert(mapped.last() == point);
        let tail = if is_kept(point) {
            seq![(point, cluster)]
        } else {
            Seq::<(u32, u32)>::empty()
        };
        lemma_points_of_both(grapheme_content(short, cluster, 0), tail, cluster as int);
        reveal_with_fuel(points_at, 2);
        assert(tail.len() > 0 ==> tail.drop_last() =~= Seq::<(u32, u32)>::empty());
        assert(points_at(grapheme_content(grapheme, cluster, 0), cluster as int)
            =~= mapped.filter(kept));
    }
}

/// The cell at a column gives its code points to its own column and to no
/// other.
proof fn lemma_cell_points(cell: RawCell, grapheme: Seq<u32>, fallback: Option<u32>, cluster: u32)
    ensures
        ({
            let content = cell_content(cell, grapheme, fallback, cluster);
            &&& content.len() > 0
            &&& forall|k: int| 0 <= k < content.len() ==> (#[trigger] content[k]).1 == cluster
            &&& match fallback {
                Some(point) => points_at(content, cluster as int) == seq![point],
                None => {
                    let own = if cell.point() == 0 || cell.point() == 0x10eeee {
                        0x20u32
                    } else {
                        cell.point() as u32
                    };
                    points_at(content, cluster as int) == if cell.tag() == 1 && cell.point()
                        != 0x10eeee {
                        seq![own] + grapheme.map_values(
                            |word: u32| (word % 0x20_0000) as u32,
                        ).filter(|point: u32| point != 0xfe0e && point != 0xfe0f)
                    } else {
                        seq![own]
                    }
                },
            }
        }),
{
    let content = cell_content(cell, grapheme, fallback, cluster);
    lemma_grapheme_clusters(grapheme, cluster, 0);
    lemma_grapheme_points(grapheme, cluster);
    let first = seq![content[0]];
    let rest = content.drop_first();
    assert(content =~= first + rest);
    reveal_with_fuel(points_at, 2);
    assert(first.drop_last() =~= Seq::<(u32, u32)>::empty());
    assert(points_at(first, cluster as int) =~= seq![content[0].0]);
    lemma_points_of_both(first, rest, cluster as int);
    if fallback is None && cell.tag() == 1 && cell.point() != 0x10eeee {
        assert(rest =~= grapheme_content(grapheme, cluster, 0));
    } else {
        assert(rest =~= Seq::<(u32, u32)>::empty());
        assert(points_at(content, cluster as int) =~= seq![content[0].0]);
    }
}

/// The font of the cell at a column, in a run that begins at `start`.
pub open spec fn font_at(row: RowModel, grid: GridModel, start: int, c: int) -> Result<
    Option<FontInfo>,
    FontNeed,
> {
    font_of(grid, row.cells[c], row.grapheme(c), variant_of(row.style(start)))
}

proof fn lemma_content_before(row: RowModel, grid: GridModel, start: int, j: int)
    requires
        0 <= start <= j,
        j - start <= 0x1_0000_0000,
    ensures
        ({
            let content = row.content_before(grid, start, j);
            &&& forall|k: int|
                0 <= k < content.len() ==> {
                    &&& start + (#[trigger] content[k]).1 < j
                    &&& !row.cells[start + content[k].1].spacer()
                }
            &&& forall|a: int, b: int|
                0 <= a <= b < content.len() ==> (#[trigger] content[a]).1 <= (
                #[trigger] content[b]).1
        }),
    decreases j - start,
{
    if start < j {
        lemma_content_before(row, grid, start, j - 1);
        let before = row.content_before(grid, start, j - 1);
        let content = row.content_before(grid, start, j);
        match font_at(row, grid, start, j - 1) {
            Ok(Some(info)) if !row.cells[j - 1].spacer() => {
                let cluster = (j - 1 - start) as u32;
                let own = cell_content(
                    row.cells[j - 1],
                    row.grapheme(j - 1),
                    info.fallback,
                    cluster,
                );
                lemma_cell_points(row.cells[j - 1], row.grapheme(j - 1), info.fallback, cluster);
                assert(content == before + own);
                assert forall|k: int| 0 <= k < content.len() implies start + (
                #[trigger] content[k]).1 < j && !row.cells[start + content[k].1].spacer() by {
                    if k < before.len() {
                        assert(content[k] == before[k]);
                    } else {
                        assert(content[k] == own[k - before.len()]);
                    }
                }
                assert forall|a: int, b: int| 0 <= a <= b < content.len() implies (
                #[trigger] content[a]).1 <= (#[trigger] content[b]).1 by {
                    if b < before.len() {
                        assert(content[a] == before[a] && content[b] == before[b]);
                    } else {
                        assert(content[b] == own[b - before.len()]);
                        if a < before.len() {
                            assert(content[a] == before[a]);
                            assert(start + before[a].1 < j - 1);
                        } else {
                            assert(content[a] == own[a - before.len()]);
                        }
                    }
                }
            },
            _ => {},
        }
    }
}

/// What a column's cell gives stays, however far the run goes on.
proof fn lemma_points_stay(row: RowModel, grid: GridModel, start: int, c: int, j: int)
    requires
        0 <= start <= c < j,
        j - start <= 0x1_0000_0000,
    ensures
        points_at(row.content_before(grid, start, j), c - start) == match font_at(
            row,
            grid,
            start,
            c,
        ) {
            Ok(Some(info)) if !row.cells[c].spacer() => points_at(
                cell_content(
                    row.cells[c],
                    row.grapheme(c),
                    info.fallback,
                    (c - start) as u32,
                ),
                c - start,
            ),
            _ => Seq::empty(),
        },
    decreases j - c,
{
    let before = row.content_before(grid, start, j - 1);
    let content = row.content_before(grid, start, j);
    let added = match font_at(row, grid, start, j - 1) {
        Ok(Some(info)) if !row.cells[j - 1].spacer() => cell_content(
            row.cells[j - 1],
            row.grapheme(j - 1),
            info.fallback,
            (j - 1 - start) as u32,
        ),
        _ => Seq::empty(),
    };
    assert(content =~= before + added);
    lemma_points_of_both(before, added, c - start);
    lemma_content_before(row, grid, start, j - 1);
    if c == j - 1 {
        lemma_points_elsewhere(before, c - start);
        assert(points_at(content, c - start) =~= points_at(added, c - start));
    } else {
        lemma_points_stay(row, grid, start, c, j - 1);
        if let Ok(Some(info)) = font_at(row, grid, start, j - 1) {
            lemma_cell_points(
                row.cells[j - 1],
                row.grapheme(j - 1),
                info.fallback,
                (j - 1 - start) as u32,
            );
        }
        lemma_points_elsewhere(added, c - start);
        assert(points_at(content, c - start) =~= points_at(before, c - start));
    }
}

/// Each code point in a run's shaping input carries the column of a cell of
/// the run, counted from the run's first column, and the columns come in order.
/// Spacers give nothing.
pub proof fn law_clusters_are_columns(row: RowModel, grid: GridModel, max: int, i: int)
    requires
        0 <= i,
        max <= 0x1_0000_0000,
    ensures
        row.next_run(grid, max, i) matches Ok(Some((run, content, end))) ==> {
            let start = row.first_shown(i, max);
            &&& forall|k: int|
                0 <= k < content.len() ==> {
                    &&& start + (#[trigger] content[k]).1 < end
                    &&& !row.cells[start + content[k].1].spacer()
                }
            &&& forall|a: int, b: int|
                0 <= a <= b < content.len() ==> (#[trigger] content[a]).1 <= (
                #[trigger] content[b]).1
        },
{
    if let Ok(Some((run, content, end))) = row.next_run(grid, max, i) {
        let start = row.first_shown(i, max);
        law_runs_are_maximal(row, grid, max, i);
        law_cells_before_the_stop_are_collected(row, grid, max, i);
        lemma_content_before(row, grid, start, end);
    }
}

/// What each cell of a run gives to the shaping input, at its own column: its
/// code point, or a space if it has none or holds a picture, followed by the rest
/// of its grapheme without presentation selectors; or the one code point that is
/// shown in its place.
pub proof fn law_each_cell_gives_its_points(
    row: RowModel,
    grid: GridModel,
    max: int,
    i: int,
    c: int,
)
    requires
        0 <= i,
        max <= 0x1_0000_0000,
    ensures
        row.next_run(grid, max, i) matches Ok(Some((run, content, end))) ==> {
            let start = row.first_shown(i, max);
            let cell = row.cells[c];
            let own = if cell.point() == 0 || cell.point() == 0x10eeee {
                0x20u32
            } else {
                cell.point() as u32
            };
            start <= c < end && !cell.spacer() ==> {
                &&& font_at(row, grid, start, c) matches Ok(Some(info)) && info.idx
                    == run.font_index && points_at(content, c - start) == match info.fallback {
                    Some(point) => seq![point],
                    None => if cell.tag() == 1 && cell.point() != 0x10eeee {
                        seq![own] + row.grapheme(c).map_values(
                            |word: u32| (word % 0x20_0000) as u32,
                        ).filter(|point: u32| point != 0xfe0e && point != 0xfe0f)
                    } else {
                        seq![own]
                    },
                }
            }
        },
{
    if let Ok(Some((run, content, end))) = row.next_run(grid, max, i) {
        let start = row.first_shown(i, max);
        let cell = row.cells[c];
        if start <= c < end && !cell.spacer() {
            law_runs_are_maximal(row, grid, max, i);
            law_cells_before_the_stop_are_collected(row, grid, max, i);
            assert(row.goes_on(grid, start, row.at(c), run.font_index));
            lemma_points_stay(row, grid, start, c, end);
            if let Ok(Some(info)) = font_at(row, grid, start, c) {
                lemma_cell_points(
                    cell,
                    row.grapheme(c),
                    info.fallback,
                    (c - start) as u32,
                );
            }
        }
    }
}

/// Whether the cells from `start` up to `end` are plain: no spacers, no
/// graphemes, each with a code point of one UTF-16 unit and a font of its own.
pub open spec fn is_simple(row: RowModel, grid: GridModel, start: int, end: int) -> bool {
    forall|c: int|
        start <= c < end ==> {
            let cell = #[trigger] row.cells[c];
            &&& !cell.spacer()
            &&& cell.tag() != 1
            &&& cell.point() < 0xd800 || 0xe000 <= cell.point() < 0x1_0000
            &&& font_at(row, grid, start, c) matches Ok(Some(info)) && info.fallback is None
        }
}

proof fn lemma_simple(row: RowModel, grid: GridModel, start: int, j: int)
    requires
        0 <= start <= j,
        j - start <= 0x1_0000_0000,
        is_simple(row, grid, start, j),
    ensures
        ({
            let content = row.content_before(grid, start, j);
            let entries = content_entries(content);
            let units = content_units(content);
            &&& content.len() == j - start
            &&& entries.len() == j - start
            &&& units.len() == j - start
            &&& forall|k: int|
                0 <= k < j - start ==> {
                    let point = row.cells[start + k].point();
                    let own = if point == 0 {
                        0x20int
                    } else {
                        point
                    };
                    &&& (#[trigger] entries[k]).cluster == k
                    &&& entries[k].codepoint == own
                    &&& units[k] == own
                }
        }),
    decreases j - start,
{
    if start < j {
        assert(is_simple(row, grid, start, j - 1));
        lemma_simple(row, grid, start, j - 1);
        let before = row.content_before(grid, start, j - 1);
        let content = row.content_before(grid, start, j);
        let cell = row.cells[j - 1];
        let cluster = (j - 1 - start) as u32;
        let own = if cell.point() == 0 {
            0x20u32
        } else {
            cell.point() as u32
        };
        assert(font_at(row, grid, start, j - 1) is Ok);
        assert(content =~= before.push((own, cluster)));
        assert(content.drop_last() =~= before);
        assert(content_entries(content) =~= content_entries(before).push(
            Codepoint { codepoint: own, cluster },
        ));
        assert(content_units(content) =~= content_units(before).push(own as u16));
        let entries = content_entries(content);
        let units = content_units(content);
        assert forall|k: int| 0 <= k < j - start implies ({
            let point = row.cells[start + k].point();
            let own = if point == 0 {
                0x20int
            } else {
                point
            };
            &&& (#[trigger] entries[k]).cluster == k
            &&& entries[k].codepoint == own
            &&& units[k] == own
        }) by {
            if k < j - 1 - start {
                assert(entries[k] == content_entries(before)[k]);
                assert(units[k] == content_units(before)[k]);
            }
        }
    }
}

/// In a run of plain cells, entry `k` of the shaping input is the code point of
/// the run's cell `k`, at cluster `k`, and so is unit `k` of its text.
pub proof fn law_plain_cells_stand_in_order(row: RowModel, grid: GridModel, max: int, i: int)
    requires
        0 <= i,
        max <= 0x1_0000_0000,
    ensures
        row.next_run(grid, max, i) matches Ok(Some((run, content, end))) ==> {
            let start = row.first_shown(i, max);
            let entries = content_entries(content);
            let units = content_units(content);
            is_simple(row, grid, start, end) ==> {
                &&& entries.len() == end - start
                &&& units.len() == end - start
                &&& forall|k: int|
                    0 <= k < end - start ==> {
                        let point = row.cells[start + k].point();
                        let own = if point == 0 {
                            0x20int
                        } else {
                            point
                        };
                        &&& (#[trigger] entries[k]).cluster == k
                        &&& entries[k].codepoint == own
                        &&& units[k] == own
                    }
            }
        },
{
    if let Ok(Some((run, content, end))) = row.next_run(grid, max, i) {
        let start = row.first_shown(i, max);
        law_runs_are_maximal(row, grid, max, i);
        law_cells_before_the_stop_are_collected(row, grid, max, i);
        if is_simple(row, grid, start, end) {
            lemma_simple(row, grid, start, end);
        }
    }
}

/// A code point of one UTF-16 unit has one entry and that unit; one of two has
/// a filler after its entry and a high and a low surrogate that give it back; a
/// number that is no character keeps its entry, and a replacement character stands
/// in the text.
pub proof fn law_entries_and_units_of_a_point(content: Seq<(u32, u32)>, point: u32, cluster: u32)
    ensures
        ({
            let after = content.push((point, cluster));
            let entries = content_entries(content);
            let units = content_units(content);
            let own = Codepoint { codepoint: point, cluster };
            let filler = Codepoint { codepoint: 0, cluster };
            &&& point < 0xd800 || 0xe000 <= point < 0x1_0000 ==> content_entries(after)
                == entries.push(own) && content_units(after) == units.push(point as u16)
            &&& 0xd800 <= point < 0xe000 || point >= 0x11_0000 ==> content_entries(after)
                == entries.push(own) && content_units(after) == units.push(0xfffd)
            &&& 0x1_0000 <= point < 0x11_0000 ==> {
                &&& content_entries(after) == entries.push(own).push(filler)
                &&& content_units(after).len() == units.len() + 2
                &&& content_units(after).take(units.len() as int) == units
                &&& ({
                    let high = content_units(after)[units.len() as int];
                    let low = content_units(after)[units.len() as int + 1];
                    &&& 0xd800 <= high < 0xdc00 <= low < 0xe000
                    &&& (high - 0xd800) * 0x400 + (low - 0xdc00) + 0x1_0000 == point
                })
            }
        }),
{
    let after = content.push((point, cluster));
    assert(after.drop_last() =~= content);
    let entries = content_entries(content);
    let units = content_units(content);
    let own = Codepoint { codepoint: point, cluster };
    let filler = Codepoint { codepoint: 0, cluster };
    if 0x1_0000 <= point < 0x11_0000 {
        assert(utf16_units(shown_scalar(point)).len() == 2);
        assert(content_entries(after) =~= entries.push(own).push(filler));
        assert(content_units(after).take(units.len() as int) =~= units);
    } else {
        assert(content_entries(after) =~= entries.push(own));
        assert(content_units(after) =~= units.push(
            if 0xd800 <= point < 0xe000 || point >= 0x11_0000 {
                0xfffdu16
            } else {
                point as u16
            },
        ));
    }
}

/// The font of a cell: in the variant that the run's style asks for and the
/// presentation that the first code point of the cell's grapheme selects, that of
/// the cell; failing that, that of the replacement character, which is then shown;
/// failing that, that of a space.
pub proof fn law_font_of_a_cell(
    grid: GridModel,
    cell: RawCell,
    grapheme: Seq<u32>,
    variant: Style,
    presentation: Option<Presentation>,
)
    requires
        cell.tag() != 1 || grapheme.len() == 0 ==> presentation is None,
        cell.tag() == 1 && grapheme.len() > 0 ==> presentation == if grapheme[0] % 0x20_0000
            == 0xfe0f {
            Some(Presentation::Emoji)
        } else if grapheme[0] % 0x20_0000 == 0xfe0e {
            Some(Presentation::Text)
        } else {
            None
        },
    ensures
        grid.cell_font(cell, grapheme, variant, presentation) matches Ok(Some(idx)) ==> font_of(
            grid,
            cell,
            grapheme,
            variant,
        ) == Ok::<Option<FontInfo>, FontNeed>(Some(FontInfo { idx, fallback: None })),
        font_of(grid, cell, grapheme, variant) matches Ok(Some(info)) ==> {
            let own = grid.cell_font(cell, grapheme, variant, presentation);
            let replacement = grid.known(0xfffd, variant, presentation);
            let space = grid.known(0x20, variant, presentation);
            let font = Ok::<Option<FontIndex>, FontNeed>(Some(info.idx));
            let none = Ok::<Option<FontIndex>, FontNeed>(None);
            &&& info.fallback is None ==> own == font
            &&& info.fallback matches Some(point) ==> own == none && {
                ||| point == 0xfffd && replacement == font
                ||| point == 0x20 && replacement == none && space == font
            }
        },
        font_of(grid, cell, grapheme, variant) == Ok::<Option<FontInfo>, FontNeed>(None) ==> {
            let none = Ok::<Option<FontIndex>, FontNeed>(None);
            &&& grid.cell_font(cell, grapheme, variant, presentation) == none
            &&& grid.known(0xfffd, variant, presentation) == none
            &&& grid.known(0x20, variant, presentation) == none
        },
{
}

/// A bold style asks for a bold font, an italic one for an italic font, both
/// for both; a cell without a style for neither.
pub proof fn law_style_asks_for_a_variant(style: CellStyle)
    ensures
        ({
            let bold = style.flags % 2 == 1;
            let italic = (style.flags / 2) % 2 == 1;
            let variant = variant_of(Some(style));
            &&& bold == (variant is Bold || variant is BoldItalic)
            &&& italic == (variant is Italic || variant is BoldItalic)
        }),
        variant_of(None) is Normal,
{
}

/// Whether a column is the first of the selection, or comes after its last.
pub open spec fn leaves_selection(row: RowModel, c: int) -> bool {
    row.selection matches Some(range) && {
        ||| range[0] > 0 && c == range[0]
        ||| range[1] > 0 && c > range[1]
    }
}

/// Whether the cell before a column and the one at it, both plain text, are `fl`,
/// `fi` or `st`.
pub open spec fn breaks_ligature(row: RowModel, c: int) -> bool {
    let a = row.cells[c - 1];
    let b = row.cells[c];
    &&& a.tag() == 0
    &&& b.tag() == 0
    &&& {
        ||| a.point() == 0x66 && (b.point() == 0x6c || b.point() == 0x69)
        ||| a.point() == 0x73 && b.point() == 0x74
    }
}

/// Whether the style of a cell differs from that of the run's first cell in
/// more than the colours of text and background. No style is like one without
/// flags and with a blank underline.
pub open spec fn looks_different(row: RowModel, start: int, c: int) -> bool {
    let blank = |style: Option<CellStyle>|
        style matches Some(s) ==> s.flags == 0 && s.underline.r == 0 && s.underline.g == 0
            && s.underline.b == 0 && s.underline.tag == 0;
    match (row.style(start), row.style(c)) {
        (Some(a), Some(b)) => a.flags != b.flags || a.underline != b.underline,
        (a, b) => !(blank(a) && blank(b)),
    }
}

/// Whether a run that begins at `start` goes no further than the cursor: the
/// cursor's cell stands alone.
pub open spec fn meets_cursor(row: RowModel, start: int, c: int) -> bool {
    row.cursor_x matches Some(x) && {
        ||| start == x && c == x + 1
        ||| start < x && c == x
    }
}

/// Whether something other than its font keeps a cell out of a run that began
/// before it.
pub open spec fn is_parted(row: RowModel, start: int, c: int) -> bool {
    ||| leaves_selection(row, c)
    ||| !row.cells[c].spacer() && {
        ||| breaks_ligature(row, c)
        ||| row.cells[c - 1].style_number() != row.cells[c].style_number() && looks_different(
            row,
            start,
            c,
        )
        ||| row.cells[c].tag() != 1 && meets_cursor(row, start, c)
    }
}

proof fn lemma_color_words(a: u32, b: u32, c: u32, d: u32, e: u32, f: u32, g: u32, h: u32)
    requires
        a < 0x100 && b < 0x100 && c < 0x100 && d < 0x100,
        e < 0x100 && f < 0x100 && g < 0x100 && h < 0x100,
        a + b * 0x100 + c * 0x1_0000 + d * 0x100_0000 == e + f * 0x100 + g * 0x1_0000 + h
            * 0x100_0000,
    ensures
        a == e && b == f && c == g && d == h,
{
}

proof fn lemma_parted(row: RowModel, start: int, c: int)
    requires
        0 <= start < c <= u16::MAX,
    ensures
        is_parted(row, start, c) == {
            ||| row.selection_splits(start, c)
            ||| !row.cells[c].spacer() && (row.neighbour_splits(start, c) || row.cursor_splits(
                start,
                c,
            ))
        },
{
    assert(row.selection_splits(start, c) == leaves_selection(row, c));
    assert((row.cells[c].tag() != 1 && meets_cursor(row, start, c)) == row.cursor_splits(start, c));
    let zero = crate::ghostty::types::StyleColor { r: 0, g: 0, b: 0, tag: 0 };
    let one = match row.style(start) {
        Some(s) => s.underline,
        None => zero,
    };
    let two = match row.style(c) {
        Some(s) => s.underline,
        None => zero,
    };
    if color_word(Some(one)) == color_word(Some(two)) {
        lemma_color_words(
            one.r as u32,
            one.g as u32,
            one.b as u32,
            one.tag as u32,
            two.r as u32,
            two.g as u32,
            two.b as u32,
            two.tag as u32,
        );
    }
    assert(color_word(Some(zero)) == 0);
    assert(looks_different(row, start, c) == (comparable(row.style(start)) != comparable(
        row.style(c),
    )));
}

/// No cell in a run, after its first, is parted from it, and the cell after a
/// run, if there is one, is parted from it or is shown in another font.
pub proof fn law_runs_end_where_they_must(row: RowModel, grid: GridModel, max: int, i: int, c: int)
    requires
        0 <= i,
        max <= u16::MAX,
    ensures
        row.next_run(grid, max, i) matches Ok(Some((run, content, end))) ==> {
            let start = row.first_shown(i, max);
            &&& run.offset == start
            &&& run.cells == end - start
            &&& start < c < end ==> !is_parted(row, start, c)
            &&& start <= c < end && !row.cells[c].spacer() ==> (font_at(
                row,
                grid,
                start,
                c,
            ) matches Ok(Some(info)) && info.idx == run.font_index)
            &&& end < max ==> is_parted(row, start, end) || (font_at(
                row,
                grid,
                start,
                end,
            ) matches Ok(Some(info)) && info.idx != run.font_index)
        },
{
    if let Ok(Some((run, content, end))) = row.next_run(grid, max, i) {
        let start = row.first_shown(i, max);
        law_runs_are_maximal(row, grid, max, i);
        if start <= c < end {
            assert(row.goes_on(grid, start, row.at(c), run.font_index));
        }
        if start < c < end {
            lemma_parted(row, start, c);
        }
        if end < max {
            lemma_parted(row, start, end);
            lemma_end_has_a_font(row, grid, max, start, start, None, Seq::empty());
        }
    }
}

/// The cell after a run has a font, unless something else ended the run.
proof fn lemma_end_has_a_font(
    row: RowModel,
    grid: GridModel,
    max: int,
    start: int,
    j: int,
    font: Option<FontIndex>,
    content: Seq<(u32, u32)>,
)
    requires
        0 <= start <= j,
    ensures
        row.extent(grid, max, start, j, font, content) matches Extent::Ended { end, .. } ==> {
            ||| end >= max
            ||| row.selection_splits(start, end)
            ||| !row.cells[end].spacer() && {
                ||| row.neighbour_splits(start, end)
                ||| row.cursor_splits(start, end)
                ||| font_at(row, grid, start, end) matches Ok(Some(_))
            }
        },
    decreases max - j,
{
    if j >= max || row.selection_splits(start, j) {
    } else if row.cells[j].spacer() {
        lemma_end_has_a_font(row, grid, max, start, j + 1, font, content);
    } else if row.neighbour_splits(start, j) || row.cursor_splits(start, j) {
    } else {
        match font_at(row, grid, start, j) {
            Ok(Some(info)) => {
                if !(j != start && font != Some(info.idx)) {
                    lemma_end_has_a_font(
                        row,
                        grid,
                        max,
                        start,
                        j + 1,
                        Some(info.idx),
                        content + cell_content(
                            row.cells[j],
                            row.grapheme(j),
                            info.fallback,
                            (j - start) as u32,
                        ),
                    );
                }
            },
            _ => {},
        }
    }
}

/// Hidden cells before a run are passed over, and only those: every column
/// between two calls that is in no run has an invisible style.
pub proof fn law_only_hidden_cells_are_passed_over(row: RowModel, max: int, i: int, c: int)
    requires
        0 <= i,
    ensures
        i <= row.first_shown(i, max),
        i <= c < row.first_shown(i, max) ==> row.cells[c].style_number() != 0 && c
            < row.styles.len() && (row.styles[c].flags / 32) % 2 == 1,
        row.first_shown(i, max) < max ==> {
            let at = row.first_shown(i, max);
            row.cells[at].style_number() == 0 || at >= row.styles.len() || (row.styles[at].flags
                / 32) % 2 == 0
        },
    decreases max - i,
{
    if i < max && row.hidden(i) {
        law_only_hidden_cells_are_passed_over(row, max, i + 1, c);
    }
}

/// A cell has the style of its column if it has a style at all and there is one; and
/// the grapheme of its column if it begins one and there is one.
pub proof fn law_style_and_grapheme_of_a_cell(row: RowModel, i: int)
    requires
        0 <= i < row.cells.len(),
    ensures
        row.cells[i].style_number() == 0 || i >= row.styles.len() ==> row.style(i) is None,
        row.cells[i].style_number() != 0 && i < row.styles.len() ==> row.style(i) == Some(
            row.styles[i],
        ),
        row.cells[i].tag() != 1 || i >= row.graphemes.len() ==> row.grapheme(i).len() == 0,
        row.cells[i].tag() == 1 && i < row.graphemes.len() ==> row.grapheme(i)
            == row.graphemes[i].codepoints@,
{
}

/// What of a style counts for a run: all its flags, and the color of its underline,
/// with the kind of color in the highest byte. No style is as good as one without
/// either.
pub proof fn law_what_counts_of_a_style(style: CellStyle)
    ensures
        comparable(Some(style)).flags == style.flags,
        comparable(Some(style)).underline == style.underline.r + 256 * style.underline.g + 65536
            * style.underline.b + 16777216 * style.underline.tag,
        comparable(None).flags == 0,
        comparable(None).underline == 0,
{
}

} // verus!
