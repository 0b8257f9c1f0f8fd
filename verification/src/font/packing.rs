//! What the skyline of an atlas amounts to: where a request goes, and when it
//! is refused, in terms of the regions that were reserved before it.
use crate::font::atlas::{
    bare_spans_low, best_place, empty_skyline, is_interior, lemma_best_place,
    lemma_column_has_span, lemma_grown_wf, lemma_level_from, lemma_place, lemma_place_low,
    lemma_spans_ordered, lemma_tallest_covers, level, placed_region, resting_row, skyline_after,
    skyline_wf, tallest, AtlasModel, Format, Node, Region,
};
use vstd::prelude::*;

verus! {

/// Whether a region has a column among the `width` columns from `x` on.
pub open spec fn shares_column(region: Region, x: int, width: int) -> bool {
    region.x < x + width && x < region.x + region.width
}

/// The first row that is free below all regions that share a column with the
/// `width` columns from `x` on. Row 0 is border.
pub open spec fn sky(regions: Seq<Region>, x: int, width: int) -> int
    decreases regions.len(),
{
    if regions.len() == 0 {
        1
    } else {
        let rest = sky(regions.drop_last(), x, width);
        let region = regions.last();
        let bottom = region.y + region.height;
        if shares_column(region, x, width) && bottom > rest {
            bottom
        } else {
            rest
        }
    }
}

/// Whether a rectangle with its left edge at column `x` has room below the
/// regions and off the border.
pub open spec fn room_at(regions: Seq<Region>, side: int, x: int, width: int, height: int) -> bool {
    &&& 1 <= x
    &&& x + width <= side - 1
    &&& sky(regions, x, width) + height <= side - 1
}

/// The skyline of the atlas is that of the regions: over each column it
/// stands at the lowest edge of the regions there.
pub open spec fn records(atlas: AtlasModel, regions: Seq<Region>) -> bool {
    &&& atlas.wf()
    &&& bare_spans_low(atlas.skyline)
    &&& forall|k: int|
        0 <= k < regions.len() ==> is_interior(#[trigger] regions[k], atlas.side)
            && regions[k].width > 0 && regions[k].height > 0
    &&& forall|px: int|
        1 <= px < atlas.side - 1 ==> #[trigger] level(atlas.skyline, px) == sky(regions, px, 1)
}

/// What can be done to an atlas.
pub enum AtlasStep {
    Reserve { width: u32, height: u32 },
    Write { region: Region, src: Seq<u8>, src_start: int, src_stride: int },
    Grow { side: int },
    Clear,
}

/// An atlas after one step more, and the regions that it has given out and
/// that were not cleared. A request for nothing gives no region out.
pub open spec fn after_step(atlas: AtlasModel, regions: Seq<Region>, step: AtlasStep) -> (
    AtlasModel,
    Seq<Region>,
) {
    match step {
        AtlasStep::Reserve { width, height } => match atlas.reserved(width, height) {
            Some((region, next)) => (
                next,
                if width > 0 && height > 0 {
                    regions.push(region)
                } else {
                    regions
                },
            ),
            None => (atlas, regions),
        },
        AtlasStep::Write { region, src, src_start, src_stride } => (
            atlas.written(region, src, src_start, src_stride),
            regions,
        ),
        AtlasStep::Grow { side } => (atlas.grown(side), regions),
        AtlasStep::Clear => (atlas.cleared(), Seq::empty()),
    }
}

/// A new atlas after steps, and the regions that it has given out and that
/// were not cleared.
pub open spec fn history(side: int, format: Format, steps: Seq<AtlasStep>) -> (
    AtlasModel,
    Seq<Region>,
)
    decreases steps.len(),
{
    if steps.len() == 0 {
        (AtlasModel::empty(side, format), Seq::empty())
    } else {
        let (atlas, regions) = history(side, format, steps.drop_last());
        after_step(atlas, regions, steps.last())
    }
}

/// Whether a step can be made: an atlas only grows, up to what it can hold,
/// and a request has both rows and columns, or neither.
pub open spec fn can_step(atlas: AtlasModel, step: AtlasStep) -> bool {
    match step {
        AtlasStep::Reserve { width, height } => (width == 0) == (height == 0),
        AtlasStep::Write { .. } => true,
        AtlasStep::Grow { side } => atlas.side <= side <= u32::MAX && AtlasModel::fits(
            side,
            atlas.format,
        ),
        AtlasStep::Clear => true,
    }
}

/// Whether a new atlas can be made and the steps can be made one after the
/// other.
pub open spec fn can_happen(side: int, format: Format, steps: Seq<AtlasStep>) -> bool
    decreases steps.len(),
{
    if steps.len() == 0 {
        AtlasModel::fits(side, format) && side <= u32::MAX
    } else {
        can_happen(side, format, steps.drop_last()) && can_step(
            history(side, format, steps.drop_last()).0,
            steps.last(),
        )
    }
}

proof fn lemma_sky_within(regions: Seq<Region>, x: int, width: int, outer: int, outer_width: int)
    requires
        outer <= x,
        x + width <= outer + outer_width,
    ensures
        1 <= sky(regions, x, width) <= sky(regions, outer, outer_width),
    decreases regions.len(),
{
    if regions.len() > 0 {
        lemma_sky_within(regions.drop_last(), x, width, outer, outer_width);
    }
}

/// The first free row over some columns is that over one of them.
proof fn lemma_sky_column(regions: Seq<Region>, x: int, width: int) -> (px: int)
    requires
        0 < width,
        forall|k: int| 0 <= k < regions.len() ==> (#[trigger] regions[k]).width > 0,
    ensures
        x <= px < x + width,
        sky(regions, px, 1) == sky(regions, x, width),
    decreases regions.len(),
{
    if regions.len() == 0 {
        x
    } else {
        let rest = regions.drop_last();
        let region = regions.last();
        assert forall|k: int| 0 <= k < rest.len() implies (#[trigger] rest[k]).width > 0 by {
            assert(rest[k] == regions[k]);
        }
        assert(region == regions[regions.len() - 1]);
        if shares_column(region, x, width) && region.y + region.height > sky(rest, x, width) {
            let px = if region.x < x {
                x
            } else {
                region.x as int
            };
            lemma_sky_within(rest, px, 1, x, width);
            px
        } else {
            let px = lemma_sky_column(rest, x, width);
            lemma_sky_within(regions, px, 1, x, width);
            px
        }
    }
}

/// The tallest span is one of those that are looked at.
proof fn lemma_tallest_is_one(nodes: Seq<Node>, i: int, right: int) -> (k: int)
    requires
        0 <= i < nodes.len(),
        nodes[i].x < right,
    ensures
        i <= k < nodes.len(),
        nodes[k].x < right,
        nodes[k].y == tallest(nodes, i, right),
    decreases nodes.len() - i,
{
    let rest = tallest(nodes, i + 1, right);
    if nodes[i].y > rest || i + 1 >= nodes.len() || nodes[i + 1].x >= right {
        i
    } else {
        lemma_tallest_is_one(nodes, i + 1, right)
    }
}

/// A rectangle on a span rests at the first row that is free below the
/// regions.
proof fn lemma_rests_below_regions(atlas: AtlasModel, regions: Seq<Region>, idx: int, width: int)
    requires
        records(atlas, regions),
        0 <= idx < atlas.skyline.len(),
        0 < width,
        atlas.skyline[idx].x + width <= atlas.side - 1,
    ensures
        1 <= atlas.skyline[idx].x,
        atlas.skyline[idx].y <= tallest(
            atlas.skyline,
            idx,
            atlas.skyline[idx].x + width,
        ),
        tallest(atlas.skyline, idx, atlas.skyline[idx].x + width) == sky(
            regions,
            atlas.skyline[idx].x as int,
            width,
        ),
{
    let nodes = atlas.skyline;
    let left = nodes[idx].x as int;
    let right = left + width;
    if idx > 0 {
        lemma_spans_ordered(nodes, 0, idx);
    }
    lemma_tallest_covers(nodes, idx, right, idx);
    let px = lemma_sky_column(regions, left, width);
    let j = lemma_column_has_span(nodes, atlas.side, px, idx);
    lemma_level_from(nodes, 0, j, px);
    lemma_tallest_covers(nodes, idx, right, j);
    assert(level(nodes, px) == sky(regions, px, 1));
    let k = lemma_tallest_is_one(nodes, idx, right);
    if idx < k {
        lemma_spans_ordered(nodes, idx, k);
    }
    let at = nodes[k].x as int;
    if nodes[k].width > 0 {
        assert(nodes[k].covers(at));
        lemma_level_from(nodes, 0, k, at);
        lemma_sky_within(regions, at, 1, left, width);
        assert(level(nodes, at) == sky(regions, at, 1));
    } else {
        lemma_sky_within(regions, left, width, left, width);
    }
}

/// For any column there is a span on which a rectangle rests no lower down
/// than it would with its left edge at the column.
proof fn lemma_span_for_column(atlas: AtlasModel, regions: Seq<Region>, x: int, width: int) -> (idx:
    int)
    requires
        records(atlas, regions),
        0 < width,
        1 <= x,
        x + width <= atlas.side - 1,
    ensures
        0 <= idx < atlas.skyline.len(),
        1 <= atlas.skyline[idx].x <= x,
        sky(regions, atlas.skyline[idx].x as int, width) <= sky(regions, x, width),
{
    let nodes = atlas.skyline;
    let idx = lemma_column_has_span(nodes, atlas.side, x, 0);
    let left = nodes[idx].x as int;
    if idx > 0 {
        lemma_spans_ordered(nodes, 0, idx);
    }
    let px = lemma_sky_column(regions, left, width);
    if px < x {
        lemma_level_from(nodes, 0, idx, px);
        lemma_level_from(nodes, 0, idx, x);
        assert(level(nodes, px) == sky(regions, px, 1));
        assert(level(nodes, x) == sky(regions, x, 1));
        lemma_sky_within(regions, x, 1, x, width);
    } else {
        lemma_sky_within(regions, px, 1, x, width);
    }
    idx
}

/// The chosen place is the lowest of all where the rectangle rests.
proof fn lemma_best_is_lowest(
    nodes: Seq<Node>,
    size: int,
    width: int,
    height: int,
    n: int,
    idx: int,
)
    requires
        size <= u32::MAX,
        0 < width,
        0 <= idx < n,
        resting_row(nodes, size, idx, width, height) is Some,
    ensures
        best_place(nodes, size, width, height, n) matches Some((_, row)) && row <= resting_row(
            nodes,
            size,
            idx,
            width,
            height,
        )->0,
    decreases n,
{
    if idx < n - 1 {
        lemma_best_is_lowest(nodes, size, width, height, n - 1, idx);
    } else {
        lemma_best_place(nodes, size, width, height, n - 1);
    }
}

/// A request is refused exactly if no column leaves room for it below the
/// regions, and is then as if it had not been made. If it is granted, it rests on
/// the regions, and no other column would have let it rest higher up.
proof fn lemma_request(atlas: AtlasModel, regions: Seq<Region>, width: u32, height: u32)
    requires
        records(atlas, regions),
        width > 0,
        height > 0,
    ensures
        atlas.reserved(width, height) is Some <==> exists|x: int|
            #[trigger] room_at(regions, atlas.side, x, width as int, height as int),
        atlas.reserved(width, height) matches Some((region, _)) ==> {
            &&& region.y == sky(regions, region.x as int, width as int)
            &&& forall|x: int|
                1 <= x && x + width <= atlas.side - 1 ==> region.y <= #[trigger] sky(
                    regions,
                    x,
                    width as int,
                )
        },
{
    let nodes = atlas.skyline;
    let n = nodes.len() as int;
    let w = width as int;
    let h = height as int;
    lemma_best_place(nodes, atlas.side, w, h, n);
    match best_place(nodes, atlas.side, w, h, n) {
        Some((idx, row)) => {
            lemma_place(nodes, atlas.side, idx, row, w, h);
            lemma_rests_below_regions(atlas, regions, idx, w);
            assert(room_at(regions, atlas.side, nodes[idx].x as int, w, h));
            assert forall|x: int| 1 <= x && x + width <= atlas.side - 1 implies row
                <= #[trigger] sky(regions, x, w) by {
                let other = lemma_span_for_column(atlas, regions, x, w);
                lemma_rests_below_regions(atlas, regions, other, w);
                if sky(regions, nodes[other].x as int, w) + h <= atlas.side - 1 {
                    lemma_best_is_lowest(nodes, atlas.side, w, h, n, other);
                }
            }
        },
        None => {
            assert forall|x: int| !#[trigger] room_at(regions, atlas.side, x, w, h) by {
                if room_at(regions, atlas.side, x, w, h) {
                    let other = lemma_span_for_column(atlas, regions, x, w);
                    lemma_rests_below_regions(atlas, regions, other, w);
                    lemma_best_is_lowest(nodes, atlas.side, w, h, n, other);
                }
            }
        },
    }
}

proof fn lemma_reserve_records(atlas: AtlasModel, regions: Seq<Region>, width: u32, height: u32)
    requires
        records(atlas, regions),
        width > 0,
        height > 0,
    ensures
        atlas.reserved(width, height) matches Some((region, next)) ==> records(
            next,
            regions.push(region),
        ),
{
    let nodes = atlas.skyline;
    let n = nodes.len() as int;
    let w = width as int;
    let h = height as int;
    lemma_best_place(nodes, atlas.side, w, h, n);
    if let Some((idx, row)) = best_place(nodes, atlas.side, w, h, n) {
        lemma_place(nodes, atlas.side, idx, row, w, h);
        lemma_place_low(nodes, atlas.side, idx, row, w, h);
        let region = placed_region(nodes, idx, row, width, height);
        let after = skyline_after(nodes, idx, row, w, h);
        let all = regions.push(region);
        assert(all.drop_last() =~= regions);
        assert forall|px: int| 1 <= px < atlas.side - 1 implies #[trigger] level(after, px) == sky(
            all,
            px,
            1,
        ) by {
            assert(level(nodes, px) == sky(regions, px, 1));
        }
        assert forall|k: int| 0 <= k < all.len() implies is_interior(
            #[trigger] all[k],
            atlas.side,
        ) && all[k].width > 0 && all[k].height > 0 by {
            if k < regions.len() {
                assert(all[k] == regions[k]);
            }
        }
    }
}

proof fn lemma_sky_free(regions: Seq<Region>, size: int, px: int)
    requires
        size - 1 <= px,
        forall|k: int| 0 <= k < regions.len() ==> is_interior(#[trigger] regions[k], size),
    ensures
        sky(regions, px, 1) == 1,
    decreases regions.len(),
{
    if regions.len() > 0 {
        let rest = regions.drop_last();
        assert forall|k: int| 0 <= k < rest.len() implies is_interior(#[trigger] rest[k], size) by {
            assert(rest[k] == regions[k]);
        }
        assert(is_interior(regions[regions.len() - 1], size));
        lemma_sky_free(rest, size, px);
    }
}

proof fn lemma_grow_records(atlas: AtlasModel, regions: Seq<Region>, side: int)
    requires
        records(atlas, regions),
        atlas.side <= side <= u32::MAX,
        AtlasModel::fits(side, atlas.format),
    ensures
        records(atlas.grown(side), regions),
{
    lemma_grown_wf(atlas, side);
    if side > atlas.side {
        let nodes = atlas.skyline;
        let out = atlas.grown(side).skyline;
        let last = nodes.len() as int;
        assert forall|px: int| 1 <= px < side - 1 implies #[trigger] level(out, px) == sky(
            regions,
            px,
            1,
        ) by {
            if px < atlas.side - 1 {
                let j = lemma_column_has_span(nodes, atlas.side, px, 0);
                assert(out[j] == nodes[j]);
                lemma_level_from(nodes, 0, j, px);
                lemma_level_from(out, 0, j, px);
                assert(level(nodes, px) == sky(regions, px, 1));
            } else {
                assert(out[last].covers(px));
                lemma_level_from(out, 0, last, px);
                lemma_sky_free(regions, atlas.side, px);
            }
        }
        assert forall|i: int|
            0 <= i < out.len() && (#[trigger] out[i]).width == 0 implies out[i].y == 1 by {
            if i < last {
                assert(out[i] == nodes[i]);
            }
        }
        assert forall|k: int| 0 <= k < regions.len() implies is_interior(
            #[trigger] regions[k],
            side,
        ) by {
            assert(is_interior(regions[k], atlas.side));
        }
    }
}

proof fn lemma_blank_records(atlas: AtlasModel)
    requires
        atlas.wf(),
        atlas.skyline == empty_skyline(atlas.side),
    ensures
        records(atlas, Seq::empty()),
{
    let nodes = atlas.skyline;
    assert forall|px: int| 1 <= px < atlas.side - 1 implies #[trigger] level(nodes, px) == sky(
        Seq::empty(),
        px,
        1,
    ) by {
        lemma_level_from(nodes, 0, 0, px);
    }
}

/// Whatever was done to an atlas, its skyline is that of the regions that it
/// has given out.
pub proof fn law_skyline_is_that_of_the_regions(side: int, format: Format, steps: Seq<AtlasStep>)
    requires
        can_happen(side, format, steps),
    ensures
        ({
            let (atlas, regions) = history(side, format, steps);
            records(atlas, regions)
        }),
    decreases steps.len(),
{
    if steps.len() == 0 {
        let blank = AtlasModel::empty(side, format);
        assert(skyline_wf(blank.skyline, side));
        assert(side * (side * format.bytes()) >= 0) by (nonlinear_arith)
            requires
                side >= 2,
                format.bytes() >= 1,
        ;
        lemma_blank_records(blank);
    } else {
        law_skyline_is_that_of_the_regions(side, format, steps.drop_last());
        let (atlas, regions) = history(side, format, steps.drop_last());
        match steps.last() {
            AtlasStep::Reserve { width, height } => {
                if width > 0 {
                    lemma_reserve_records(atlas, regions, width, height);
                }
            },
            AtlasStep::Write { region, src, src_start, src_stride } => {
                assert(records(atlas.written(region, src, src_start, src_stride), regions));
            },
            AtlasStep::Grow { side } => {
                lemma_grow_records(atlas, regions, side);
            },
            AtlasStep::Clear => {
                let blank = atlas.cleared();
                assert(skyline_wf(blank.skyline, blank.side));
                lemma_blank_records(blank);
            },
        }
    }
}

/// Whatever was done to an atlas, a request is refused exactly if no column
/// leaves room for it below the regions that were given out, and a refused
/// request is as if it had not been made.
pub proof fn law_refused_only_without_room(
    side: int,
    format: Format,
    steps: Seq<AtlasStep>,
    width: u32,
    height: u32,
)
    requires
        can_happen(side, format, steps),
        width > 0,
        height > 0,
    ensures
        ({
            let (atlas, regions) = history(side, format, steps);
            let refused = atlas.reserved(width, height) is None;
            &&& refused <==> !exists|x: int|
                #[trigger] room_at(regions, atlas.side, x, width as int, height as int)
            &&& refused ==> history(
                side,
                format,
                steps.push(AtlasStep::Reserve { width, height }),
            ) == (atlas, regions)
        }),
{
    law_skyline_is_that_of_the_regions(side, format, steps);
    let (atlas, regions) = history(side, format, steps);
    lemma_request(atlas, regions, width, height);
    assert(steps.push(AtlasStep::Reserve { width, height }).drop_last() =~= steps);
}

/// Whatever was done to an atlas, a request that is granted rests right below
/// the regions that were given out, and no other column would have let it rest
/// higher up.
pub proof fn law_lowest_row_is_chosen(
    side: int,
    format: Format,
    steps: Seq<AtlasStep>,
    width: u32,
    height: u32,
)
    requires
        can_happen(side, format, steps),
        width > 0,
        height > 0,
        history(side, format, steps).0.reserved(width, height) is Some,
    ensures
        ({
            let (atlas, regions) = history(side, format, steps);
            atlas.reserved(width, height) matches Some((region, _)) && ({
                &&& region.y == sky(regions, region.x as int, width as int)
                &&& forall|x: int|
                    1 <= x && x + width <= atlas.side - 1 ==> region.y <= #[trigger] sky(
                        regions,
                        x,
                        width as int,
                    )
            })
        }),
{
    law_skyline_is_that_of_the_regions(side, format, steps);
    let (atlas, regions) = history(side, format, steps);
    lemma_request(atlas, regions, width, height);
}

} // verus!
