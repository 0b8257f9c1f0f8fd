//! Which font a grid gives a cell, and what it does with a glyph.
#[allow(unused_imports)]
use crate::font::collection::{CollectionModel, FaceModel, FontNeed};
#[allow(unused_imports)]
use crate::font::shared_grid::{grapheme_point, is_invisible_joiner, with_primary_faces, GridModel};
#[allow(unused_imports)]
use crate::font::types::{FontIndex, Presentation, Style};
#[allow(unused_imports)]
use crate::ghostty::types::RawCell;
use vstd::prelude::*;

verus! {

/// Whether a code point of a grapheme needs a glyph: a presentation selector
/// and a joiner do not.
pub open spec fn needs_glyph(word: u32) -> bool {
    let point = word % 0x20_0000;
    point != 0xfe0e && point != 0xfe0f && point != 0x200d
}

/// Whether a font has a code point in a presentation, and every code point of the
/// rest of its grapheme that needs a glyph.
pub open spec fn has_grapheme(
    grid: GridModel,
    font: FontIndex,
    point: u32,
    grapheme: Seq<u32>,
    presentation: Option<Presentation>,
) -> bool {
    let collection = grid.resolver.collection;
    &&& collection.supports(font, point, presentation) == Ok::<bool, FontNeed>(true)
    &&& forall|i: int|
        0 <= i < grapheme.len() && needs_glyph(#[trigger] grapheme[i]) ==> collection.supports(
            font,
            (grapheme[i] % 0x20_0000) as u32,
            None,
        ) == Ok::<bool, FontNeed>(true)
}

proof fn lemma_covers_from(grid: GridModel, font: FontIndex, grapheme: Seq<u32>, i: int)
    requires
        0 <= i,
    ensures
        match grid.covers_from(font, grapheme, i) {
            Ok(covers) => covers == forall|k: int|
                i <= k < grapheme.len() && needs_glyph(#[trigger] grapheme[k])
                    ==> grid.resolver.collection.supports(
                    font,
                    (grapheme[k] % 0x20_0000) as u32,
                    None,
                ) == Ok::<bool, FontNeed>(true),
            Err(_) => exists|k: int|
                i <= k < grapheme.len() && needs_glyph(#[trigger] grapheme[k])
                    && grid.resolver.collection.supports(
                    font,
                    (grapheme[k] % 0x20_0000) as u32,
                    None,
                ) is Err,
        },
    decreases grapheme.len() - i,
{
    if i < grapheme.len() {
        lemma_covers_from(grid, font, grapheme, i + 1);
        assert(needs_glyph(grapheme[i]) == !is_invisible_joiner(grapheme_point(grapheme[i])));
    }
}

proof fn lemma_covers(
    grid: GridModel,
    font: FontIndex,
    point: u32,
    grapheme: Seq<u32>,
    presentation: Option<Presentation>,
)
    ensures
        match grid.covers(font, point, grapheme, presentation) {
            Ok(covers) => covers == has_grapheme(grid, font, point, grapheme, presentation),
            Err(_) => !has_grapheme(grid, font, point, grapheme, presentation),
        },
{
    lemma_covers_from(grid, font, grapheme, 0);
}

proof fn lemma_other_font(
    grid: GridModel,
    primary: FontIndex,
    point: u32,
    grapheme: Seq<u32>,
    style: Style,
    presentation: Option<Presentation>,
    i: int,
)
    requires
        0 <= i,
    ensures
        grid.other_font(primary, point, grapheme, style, presentation, i) matches Ok(Some(font))
            ==> has_grapheme(grid, font, point, grapheme, presentation),
    decreases grapheme.len() - i,
{
    if i < grapheme.len() {
        lemma_other_font(grid, primary, point, grapheme, style, presentation, i + 1);
        let next = grapheme_point(grapheme[i]);
        if let Ok(Some(font)) = grid.known(next, style, None) {
            lemma_covers(grid, font, point, grapheme, presentation);
        }
    }
}

proof fn lemma_other_font_found(
    grid: GridModel,
    primary: FontIndex,
    point: u32,
    grapheme: Seq<u32>,
    style: Style,
    presentation: Option<Presentation>,
    i: int,
    at: int,
    font: FontIndex,
)
    requires
        0 <= i <= at < grapheme.len(),
        needs_glyph(grapheme[at]),
        grid.known((grapheme[at] % 0x20_0000) as u32, style, None) == Ok::<
            Option<FontIndex>,
            FontNeed,
        >(Some(font)),
        has_grapheme(grid, font, point, grapheme, presentation),
        font != primary,
        forall|k: int|
            i <= k < at && needs_glyph(#[trigger] grapheme[k]) ==> grid.known(
                (grapheme[k] % 0x20_0000) as u32,
                style,
                None,
            ) != Ok::<Option<FontIndex>, FontNeed>(None),
    ensures
        grid.other_font(primary, point, grapheme, style, presentation, i) != Ok::<
            Option<FontIndex>,
            FontNeed,
        >(None),
    decreases at - i,
{
    lemma_covers(grid, font, point, grapheme, presentation);
    if i < at {
        assert(needs_glyph(grapheme[i]) == !is_invisible_joiner(grapheme_point(grapheme[i])));
        lemma_other_font_found(
            grid,
            primary,
            point,
            grapheme,
            style,
            presentation,
            i + 1,
            at,
            font,
        );
    }
}

/// The font of a cell that begins a grapheme has the whole grapheme: the cell's
/// code point in the presentation asked for, and every further code point that
/// needs a glyph. Such a cell holds neither nothing nor a picture.
pub proof fn law_font_of_a_grapheme_has_all_of_it(
    grid: GridModel,
    cell: RawCell,
    grapheme: Seq<u32>,
    style: Style,
    presentation: Option<Presentation>,
    font: FontIndex,
)
    requires
        cell.tag() == 1,
        cell.point() != 0,
        cell.point() != 0x10eeee,
        grid.cell_font(cell, grapheme, style, presentation) == Ok::<Option<FontIndex>, FontNeed>(
            Some(font),
        ),
    ensures
        has_grapheme(grid, font, cell.point() as u32, grapheme, presentation),
{
    let point = cell.point() as u32;
    if let Ok(Some(primary)) = grid.known(point, style, presentation) {
        lemma_covers(grid, primary, point, grapheme, presentation);
        lemma_other_font(grid, primary, point, grapheme, style, presentation, 0);
    }
}

/// The font of the cell's code point is preferred: if it has the whole grapheme,
/// it is the font of the cell.
pub proof fn law_own_font_is_preferred(
    grid: GridModel,
    cell: RawCell,
    grapheme: Seq<u32>,
    style: Style,
    presentation: Option<Presentation>,
    font: FontIndex,
)
    requires
        cell.tag() == 1,
        cell.point() != 0,
        cell.point() != 0x10eeee,
        grid.known(cell.point() as u32, style, presentation) == Ok::<Option<FontIndex>, FontNeed>(
            Some(font),
        ),
        has_grapheme(grid, font, cell.point() as u32, grapheme, presentation),
    ensures
        grid.cell_font(cell, grapheme, style, presentation) == Ok::<Option<FontIndex>, FontNeed>(
            Some(font),
        ),
{
    lemma_covers(grid, font, cell.point() as u32, grapheme, presentation);
}

/// If the font of one of the grapheme's code points has the whole grapheme, and
/// the cell's code point and each code point before that one is not without a
/// font, the cell is not without a font.
pub proof fn law_font_that_has_the_grapheme_is_found(
    grid: GridModel,
    cell: RawCell,
    grapheme: Seq<u32>,
    style: Style,
    presentation: Option<Presentation>,
    at: int,
    font: FontIndex,
)
    requires
        cell.tag() == 1,
        cell.point() != 0,
        cell.point() != 0x10eeee,
        grid.known(cell.point() as u32, style, presentation) != Ok::<Option<FontIndex>, FontNeed>(
            None,
        ),
        0 <= at < grapheme.len(),
        needs_glyph(grapheme[at]),
        grid.known((grapheme[at] % 0x20_0000) as u32, style, None) == Ok::<
            Option<FontIndex>,
            FontNeed,
        >(Some(font)),
        has_grapheme(grid, font, cell.point() as u32, grapheme, presentation),
        forall|k: int|
            0 <= k < at && needs_glyph(#[trigger] grapheme[k]) ==> grid.known(
                (grapheme[k] % 0x20_0000) as u32,
                style,
                None,
            ) != Ok::<Option<FontIndex>, FontNeed>(None),
    ensures
        grid.cell_font(cell, grapheme, style, presentation) != Ok::<Option<FontIndex>, FontNeed>(
            None,
        ),
{
    let point = cell.point() as u32;
    if let Ok(Some(primary)) = grid.known(point, style, presentation) {
        lemma_covers(grid, primary, point, grapheme, presentation);
        if primary != font {
            lemma_other_font_found(
                grid,
                primary,
                point,
                grapheme,
                style,
                presentation,
                0,
                at,
                font,
            );
        }
    }
}

/// A cell of one code point has the font of that code point; a cell without
/// text, and one that holds a picture, has that of a space.
pub proof fn law_font_of_a_plain_cell(
    grid: GridModel,
    cell: RawCell,
    grapheme: Seq<u32>,
    style: Style,
    presentation: Option<Presentation>,
)
    requires
        cell.tag() != 1 || cell.point() == 0 || cell.point() == 0x10eeee,
    ensures
        grid.cell_font(cell, grapheme, style, presentation) == grid.known(
            if cell.tag() == 0 && cell.point() != 0 && cell.point() != 0x10eeee {
                cell.point() as u32
            } else {
                0x20
            },
            style,
            presentation,
        ),
{
}

/// What was told of a face's glyph decides what the face has: a code point with
/// glyph 0 it has not; with a coloured glyph it has it as an emoji and not as text;
/// with another glyph as text and not as an emoji. Of other code points and other
/// faces nothing changes.
pub proof fn law_told_glyphs_decide(
    c: CollectionModel,
    index: FontIndex,
    codepoint: u32,
    glyph: u16,
    colored: bool,
    other: FontIndex,
    other_point: u32,
)
    requires
        index.wf(),
        other.wf(),
        index.face() < c.faces(index.variant()).len(),
    ensures
        ({
            let after = c.told_glyph(index, codepoint, glyph).told_color(index, glyph, colored);
            &&& after.supports(index, codepoint, None) == Ok::<bool, FontNeed>(glyph != 0)
            &&& after.supports(index, codepoint, Some(Presentation::Emoji)) == Ok::<bool, FontNeed>(
                glyph != 0 && colored,
            )
            &&& after.supports(index, codepoint, Some(Presentation::Text)) == Ok::<bool, FontNeed>(
                glyph != 0 && !colored,
            )
            &&& other != index || other_point != codepoint ==> after.supports(
                other,
                other_point,
                None,
            ) == c.supports(other, other_point, None)
            &&& after.handle_at(other) == c.handle_at(other)
        }),
{
    let told = c.told_glyph(index, codepoint, glyph);
    let after = told.told_color(index, glyph, colored);
    if other.variant() == index.variant() && other.face() == index.face() {
        crate::font::types::law_font_index_is_its_parts(other, index);
    }
}

/// A face that a collection does not have has the index of its variant and the
/// next free place, and its handle is found there; all other faces stay.
pub proof fn law_new_face_comes_last(c: CollectionModel, style: Style, handle: u64)
    requires
        c.wf(),
        c.faces(style).len() < 8192,
        forall|k: int| 0 <= k < c.faces(style).len() ==> (#[trigger] c.faces(style)[k]).handle
            != handle,
    ensures
        ({
            let after = c.with_face(style, handle);
            &&& c.index_for_face(style, handle) matches Some(index) && index.variant() == style
                && index.face() == c.faces(style).len()
            &&& after.faces(style) == c.faces(style).push(
                FaceModel { handle, glyphs: Map::empty(), colors: Map::empty() },
            )
            &&& forall|other: Style| other != style ==> #[trigger] after.faces(other) == c.faces(
                other,
            )
        }),
{
    lemma_not_there(c, style, handle, 0);
    crate::font::types::lemma_packed_parts(style, c.faces(style).len() as int);
}

proof fn lemma_not_there(c: CollectionModel, style: Style, handle: u64, i: int)
    requires
        0 <= i <= c.faces(style).len(),
        forall|k: int| 0 <= k < c.faces(style).len() ==> (#[trigger] c.faces(style)[k]).handle
            != handle,
    ensures
        c.place_of(style, handle, i) == c.faces(style).len(),
    decreases c.faces(style).len() - i,
{
    if i < c.faces(style).len() {
        lemma_not_there(c, style, handle, i + 1);
    }
}

/// The four primary faces of an empty collection are the first of the normal,
/// the bold, the italic and the bold italic variant, in this order.
pub proof fn law_primary_faces_by_style(c: CollectionModel, faces: Seq<u64>)
    requires
        faces.len() == 4,
        forall|style: Style| #[trigger] c.faces(style).len() == 0,
    ensures
        ({
            let after = with_primary_faces(c, faces, 4);
            let only = |handle: u64|
                seq![FaceModel { handle, glyphs: Map::empty(), colors: Map::empty() }];
            &&& after.faces(Style::Normal) == only(faces[0])
            &&& after.faces(Style::Bold) == only(faces[1])
            &&& after.faces(Style::Italic) == only(faces[2])
            &&& after.faces(Style::BoldItalic) == only(faces[3])
        }),
{
    reveal_with_fuel(with_primary_faces, 5);
    let one = with_primary_faces(c, faces, 1);
    let two = with_primary_faces(c, faces, 2);
    let three = with_primary_faces(c, faces, 3);
    let four = with_primary_faces(c, faces, 4);
    assert(c.faces(Style::Normal).len() == 0);
    assert(c.faces(Style::Bold).len() == 0);
    assert(c.faces(Style::Italic).len() == 0);
    assert(c.faces(Style::BoldItalic).len() == 0);
    law_new_face_comes_last(c, Style::Normal, faces[0]);
    assert(one.faces(Style::Bold) == c.faces(Style::Bold));
    assert(one.faces(Style::Italic) == c.faces(Style::Italic));
    assert(one.faces(Style::BoldItalic) == c.faces(Style::BoldItalic));
    law_new_face_comes_last(one, Style::Bold, faces[1]);
    assert(two.faces(Style::Normal) == one.faces(Style::Normal));
    assert(two.faces(Style::Italic) == one.faces(Style::Italic));
    assert(two.faces(Style::BoldItalic) == one.faces(Style::BoldItalic));
    law_new_face_comes_last(two, Style::Italic, faces[2]);
    assert(three.faces(Style::Normal) == two.faces(Style::Normal));
    assert(three.faces(Style::Bold) == two.faces(Style::Bold));
    assert(three.faces(Style::BoldItalic) == two.faces(Style::BoldItalic));
    law_new_face_comes_last(three, Style::BoldItalic, faces[3]);
    assert(four.faces(Style::Normal) == three.faces(Style::Normal));
    assert(four.faces(Style::Bold) == three.faces(Style::Bold));
    assert(four.faces(Style::Italic) == three.faces(Style::Italic));
}

} // verus!
