//! Texture atlas: a skyline bin-packing allocator over CPU-owned pixel data.
//!
//! The texture is square and keeps a border of one pixel on every side. The
//! skyline is a list of adjoining spans, each with the height up to which its
//! columns are taken. `modified` and `resized` count the mutations, so that a
//! renderer can tell when its copy is out of date.
use vstd::prelude::*;

verus! {

/// Initial side length of an atlas.
pub const INITIAL_SIZE: u32 = 512;

/// Number of skyline nodes to allocate up front.
const NODE_PREALLOC: usize = 64;

/// Pixel format of the texture data.
#[derive(Clone, Copy, Debug, PartialEq, Eq, Structural)]
pub enum Format {
    /// One byte per pixel: grayscale text glyphs.
    Grayscale,
    /// Four bytes per pixel: colour glyphs.
    Bgra,
}

impl Format {
    /// Bytes per pixel, as a mathematical integer.
    pub open spec fn bytes(self) -> int {
        match self {
            Format::Grayscale => 1,
            Format::Bgra => 4,
        }
    }

    /// Bytes per pixel.
    pub fn depth(self) -> (depth: u32)
        ensures
            depth == self.bytes(),
    {
        match self {
            Format::Grayscale => 1,
            Format::Bgra => 4,
        }
    }
}

/// A rectangle of pixels within the atlas.
#[derive(Clone, Copy, Debug, PartialEq, Eq, Structural)]
pub struct Region {
    pub x: u32,
    pub y: u32,
    pub width: u32,
    pub height: u32,
}

impl Default for Region {
    fn default() -> (region: Region)
        ensures
            region == (Region { x: 0, y: 0, width: 0, height: 0 }),
    {
        Region { x: 0, y: 0, width: 0, height: 0 }
    }
}

impl Region {
    /// Whether the pixel at column `px` and row `py` lies in the rectangle.
    pub open spec fn contains(self, px: int, py: int) -> bool {
        self.x <= px < self.x + self.width && self.y <= py < self.y + self.height
    }

    /// Whether the rectangle may be written in an atlas of side `size`: it
    /// starts before the last row and column and ends before the far edge.
    pub open spec fn writable(self, size: int) -> bool {
        &&& self.x < size - 1
        &&& self.x + self.width < size
        &&& self.y < size - 1
        &&& self.y + self.height < size
    }
}

/// A span of the skyline: columns `x .. x + width` are taken up to row `y`.
#[derive(Clone, Copy, Debug, PartialEq, Eq, Structural)]
pub struct Node {
    pub x: u32,
    pub y: u32,
    pub width: u32,
}

impl Node {
    /// Whether the span lies over column `px`.
    pub open spec fn covers(self, px: int) -> bool {
        self.x <= px < self.x + self.width
    }
}

/// The atlas cannot fit the requested region.
#[derive(Clone, Copy, Debug, PartialEq, Eq, Structural)]
pub struct AtlasFullError;

impl AtlasFullError {
    /// The message shown for this error.
    pub fn message(&self) -> (text: &'static str)
        ensures
            text@ == "atlas is full"@,
    {
        "atlas is full"
    }
}

/// The skyline of an empty atlas: one span over the interior.
pub open spec fn empty_skyline(size: int) -> Seq<Node> {
    seq![Node { x: 1, y: 1, width: (size - 2) as u32 }]
}

/// Consecutive spans adjoin.
pub open spec fn adjoining(nodes: Seq<Node>) -> bool {
    forall|i: int, j: int|
        #![trigger nodes[i], nodes[j]]
        0 <= i && j == i + 1 && j < nodes.len() ==> nodes[j].x == nodes[i].x + nodes[i].width
}

/// The spans run from column 1 to the last interior column without a gap, and
/// no column is taken beyond the interior.
pub open spec fn skyline_wf(nodes: Seq<Node>, size: int) -> bool {
    &&& nodes.len() > 0
    &&& nodes[0].x == 1
    &&& adjoining(nodes)
    &&& nodes.last().x + nodes.last().width == size - 1
    &&& forall|i: int| 0 <= i < nodes.len() ==> (#[trigger] nodes[i]).y >= 1
    &&& forall|i: int|
        0 <= i < nodes.len() && (#[trigger] nodes[i]).width > 0 ==> nodes[i].y <= size - 1
}

/// The tallest span among those from `i` on that begin left of `right`.
pub open spec fn tallest(nodes: Seq<Node>, i: int, right: int) -> int
    decreases nodes.len() - i,
{
    if i < 0 || i >= nodes.len() || nodes[i].x >= right {
        0
    } else {
        let rest = tallest(nodes, i + 1, right);
        if nodes[i].y > rest {
            nodes[i].y as int
        } else {
            rest
        }
    }
}

/// The row at which a `width` by `height` rectangle rests when its left edge
/// is that of span `idx`, or `None` if it would leave the interior there. A
/// rectangle without columns is only kept from overflowing a coordinate.
pub open spec fn resting_row(
    nodes: Seq<Node>,
    size: int,
    idx: int,
    width: int,
    height: int,
) -> Option<int> {
    let left = nodes[idx].x as int;
    let under = tallest(nodes, idx, left + width);
    let row = if nodes[idx].y > under {
        nodes[idx].y as int
    } else {
        under
    };
    if left + width > size - 1 {
        None
    } else if width > 0 && row + height > size - 1 {
        None
    } else if row + height > u32::MAX {
        None
    } else {
        Some(row)
    }
}

/// The bottom edge that a candidate has to beat.
pub open spec fn bottom_to_beat(best: Option<(int, int)>, height: int) -> int {
    match best {
        Some((_, row)) => row + height,
        None => u32::MAX as int,
    }
}

/// The span width that a candidate with the same bottom edge has to beat.
pub open spec fn width_to_beat(nodes: Seq<Node>, best: Option<(int, int)>) -> int {
    match best {
        Some((idx, _)) => nodes[idx].width as int,
        None => u32::MAX as int,
    }
}

/// The best place among the first `n` spans, as the span's index and the row:
/// the lowest bottom edge, then the narrowest span that has any columns, then
/// the leftmost.
pub open spec fn best_place(
    nodes: Seq<Node>,
    size: int,
    width: int,
    height: int,
    n: int,
) -> Option<(int, int)>
    decreases n,
{
    if n <= 0 {
        None
    } else {
        let best = best_place(nodes, size, width, height, n - 1);
        match resting_row(nodes, size, n - 1, width, height) {
            Some(row) => {
                let bottom = row + height;
                let wide = nodes[n - 1].width;
                if bottom < bottom_to_beat(best, height) || (bottom == bottom_to_beat(best, height)
                    && wide > 0 && wide < width_to_beat(nodes, best)) {
                    Some((n - 1, row))
                } else {
                    best
                }
            },
            None => best,
        }
    }
}

/// The spans from `i` on, cut back to begin at `right`: those that lie wholly
/// left of it are gone.
pub open spec fn cut_back(nodes: Seq<Node>, i: int, right: int) -> Seq<Node>
    decreases nodes.len(),
{
    if 0 <= i < nodes.len() && nodes[i].x < right {
        if nodes[i].x + nodes[i].width <= right {
            cut_back(nodes.remove(i), i, right)
        } else {
            nodes.update(
                i,
                Node {
                    x: right as u32,
                    y: nodes[i].y,
                    width: (nodes[i].x + nodes[i].width - right) as u32,
                },
            )
        }
    } else {
        nodes
    }
}

/// Neighbours of the same height joined into one span, from span `i` on.
pub open spec fn joined(nodes: Seq<Node>, i: int) -> Seq<Node>
    decreases nodes.len() - i,
{
    if 0 <= i && i + 1 < nodes.len() {
        if nodes[i].y == nodes[i + 1].y {
            joined(
                nodes.update(
                    i,
                    Node {
                        x: nodes[i].x,
                        y: nodes[i].y,
                        width: (nodes[i].width + nodes[i + 1].width) as u32,
                    },
                ).remove(i + 1),
                i,
            )
        } else {
            joined(nodes, i + 1)
        }
    } else {
        nodes
    }
}

/// The skyline after a `width` by `height` rectangle was placed on span `idx`
/// at `row`.
pub open spec fn skyline_after(
    nodes: Seq<Node>,
    idx: int,
    row: int,
    width: int,
    height: int,
) -> Seq<Node> {
    let left = nodes[idx].x;
    let placed = Node { x: left, y: (row + height) as u32, width: width as u32 };
    joined(cut_back(nodes.insert(idx, placed), idx + 1, left + width), 0)
}

/// The height of the skyline over column `px`, looking from span `i` on.
pub open spec fn level_from(nodes: Seq<Node>, i: int, px: int) -> int
    decreases nodes.len() - i,
{
    if i < 0 || i >= nodes.len() {
        0
    } else if nodes[i].covers(px) {
        nodes[i].y as int
    } else {
        level_from(nodes, i + 1, px)
    }
}

/// The height of the skyline over column `px`: the rows above it are taken.
pub open spec fn level(nodes: Seq<Node>, px: int) -> int {
    level_from(nodes, 0, px)
}

/// Every column that a span covers has the height that `heights` gives it.
spec fn has_profile(nodes: Seq<Node>, heights: spec_fn(int) -> int) -> bool {
    forall|j: int, px: int|
        0 <= j < nodes.len() && #[trigger] nodes[j].covers(px) ==> nodes[j].y == heights(px)
}

pub(crate) proof fn lemma_spans_ordered(nodes: Seq<Node>, i: int, j: int)
    requires
        adjoining(nodes),
        0 <= i < j < nodes.len(),
    ensures
        nodes[i].x + nodes[i].width <= nodes[j].x,
    decreases j - i,
{
    if i + 1 < j {
        lemma_spans_ordered(nodes, i, j - 1);
        assert(nodes[j].x == nodes[j - 1].x + nodes[j - 1].width);
    }
}

pub(crate) proof fn lemma_level_from(nodes: Seq<Node>, i: int, j: int, px: int)
    requires
        adjoining(nodes),
        0 <= i <= j < nodes.len(),
        nodes[j].covers(px),
    ensures
        level_from(nodes, i, px) == nodes[j].y,
    decreases j - i,
{
    if i < j {
        lemma_spans_ordered(nodes, i, j);
        lemma_level_from(nodes, i + 1, j, px);
    }
}

proof fn lemma_own_profile(nodes: Seq<Node>)
    requires
        adjoining(nodes),
    ensures
        has_profile(nodes, |px: int| level(nodes, px)),
{
    assert forall|j: int, px: int|
        0 <= j < nodes.len() && #[trigger] nodes[j].covers(px) implies nodes[j].y == level(
        nodes,
        px,
    ) by {
        lemma_level_from(nodes, 0, j, px);
    }
}

pub(crate) proof fn lemma_column_has_span(nodes: Seq<Node>, size: int, px: int, i: int) -> (j: int)
    requires
        skyline_wf(nodes, size),
        0 <= i < nodes.len(),
        nodes[i].x <= px < size - 1,
    ensures
        i <= j < nodes.len(),
        nodes[j].covers(px),
    decreases nodes.len() - i,
{
    if nodes[i].covers(px) {
        i
    } else {
        assert(i + 1 < nodes.len());
        assert(nodes[i + 1].x == nodes[i].x + nodes[i].width);
        lemma_column_has_span(nodes, size, px, i + 1)
    }
}

proof fn lemma_profile_is_level(nodes: Seq<Node>, size: int, heights: spec_fn(int) -> int, px: int)
    requires
        skyline_wf(nodes, size),
        has_profile(nodes, heights),
        1 <= px < size - 1,
    ensures
        level(nodes, px) == heights(px),
{
    let j = lemma_column_has_span(nodes, size, px, 0);
    lemma_level_from(nodes, 0, j, px);
    assert(nodes[j].covers(px));
}

proof fn lemma_tallest_bounds(nodes: Seq<Node>, i: int, right: int)
    ensures
        0 <= tallest(nodes, i, right) <= u32::MAX,
    decreases nodes.len() - i,
{
    if 0 <= i && i < nodes.len() && nodes[i].x < right {
        lemma_tallest_bounds(nodes, i + 1, right);
    }
}

pub(crate) proof fn lemma_tallest_covers(nodes: Seq<Node>, i: int, right: int, k: int)
    requires
        adjoining(nodes),
        0 <= i <= k < nodes.len(),
        nodes[k].x < right,
    ensures
        nodes[k].y <= tallest(nodes, i, right),
    decreases k - i,
{
    if i < k {
        lemma_spans_ordered(nodes, i, k);
        lemma_tallest_covers(nodes, i + 1, right, k);
    }
}

proof fn lemma_cut_back(
    nodes: Seq<Node>,
    i: int,
    right: int,
    size: int,
    heights: spec_fn(int) -> int,
)
    requires
        1 <= i <= nodes.len(),
        nodes[0].x == 1,
        size - 1 <= u32::MAX,
        right <= size - 1,
        nodes[i - 1].x + nodes[i - 1].width == right,
        adjoining(nodes.take(i)),
        adjoining(nodes.skip(i)),
        i == nodes.len() ==> right == size - 1,
        i < nodes.len() ==> nodes[i].x <= right && nodes.last().x + nodes.last().width == size - 1,
        forall|k: int| 0 <= k < nodes.len() ==> (#[trigger] nodes[k]).y >= 1,
        forall|k: int|
            0 <= k < nodes.len() && (#[trigger] nodes[k]).width > 0 ==> nodes[k].y <= size - 1,
        forall|k: int, px: int|
            0 <= k < nodes.len() && #[trigger] nodes[k].covers(px) && (k < i || px >= right)
                ==> nodes[k].y == heights(px),
    ensures
        skyline_wf(cut_back(nodes, i, right), size),
        has_profile(cut_back(nodes, i, right), heights),
    decreases nodes.len(),
{
    let head = nodes.take(i);
    let tail = nodes.skip(i);
    assert forall|a: int, b: int|
        #![trigger nodes[a], nodes[b]]
        0 <= a && b == a + 1 && b < nodes.len() && b != i implies nodes[b].x == nodes[a].x
        + nodes[a].width by {
        if b < i {
            assert(head[a] == nodes[a] && head[b] == nodes[b]);
        } else {
            assert(tail[a - i] == nodes[a] && tail[b - i] == nodes[b]);
        }
    }
    if i < nodes.len() && nodes[i].x < right {
        let end = nodes[i].x + nodes[i].width;
        if end <= right {
            let rest = nodes.remove(i);
            assert(rest.take(i) =~= head);
            assert forall|a: int, b: int|
                #![trigger rest.skip(i)[a], rest.skip(i)[b]]
                0 <= a && b == a + 1 && b < rest.skip(i).len() implies rest.skip(i)[b].x
                == rest.skip(i)[a].x + rest.skip(i)[a].width by {
                assert(rest.skip(i)[a] == nodes[i + 1 + a]);
                assert(rest.skip(i)[b] == nodes[i + 1 + b]);
            }
            if i + 1 < nodes.len() {
                assert(nodes[i + 1].x == end);
                assert(rest.last() == nodes.last());
            } else {
                assert(nodes.last() == nodes[i]);
            }
            assert forall|k: int| 0 <= k < rest.len() implies (#[trigger] rest[k]).y >= 1 by {
                assert(rest[k] == nodes[if k < i {
                    k
                } else {
                    k + 1
                }]);
            }
            assert forall|k: int|
                0 <= k < rest.len() && (#[trigger] rest[k]).width > 0 implies rest[k].y <= size
                - 1 by {
                assert(rest[k] == nodes[if k < i {
                    k
                } else {
                    k + 1
                }]);
            }
            assert forall|k: int, px: int|
                0 <= k < rest.len() && #[trigger] rest[k].covers(px) && (k < i || px
                    >= right) implies rest[k].y == heights(px) by {
                let o = if k < i {
                    k
                } else {
                    k + 1
                };
                assert(rest[k] == nodes[o]);
                assert(nodes[o].covers(px));
            }
            lemma_cut_back(rest, i, right, size, heights);
        } else {
            let kept = Node { x: right as u32, y: nodes[i].y, width: (end - right) as u32 };
            let out = nodes.update(i, kept);
            assert forall|k: int, px: int|
                0 <= k < out.len() && #[trigger] out[k].covers(px) implies out[k].y == heights(
                px,
            ) by {
                if k > i {
                    assert(tail[0] == nodes[i] && tail[k - i] == nodes[k]);
                    lemma_spans_ordered(tail, 0, k - i);
                }
                assert(nodes[k].covers(px));
            }
            assert(out.last() == if i + 1 == nodes.len() {
                kept
            } else {
                nodes.last()
            });
        }
    } else {
        assert forall|k: int, px: int|
            0 <= k < nodes.len() && #[trigger] nodes[k].covers(px) implies nodes[k].y == heights(
            px,
        ) by {
            if k > i {
                assert(tail[0] == nodes[i] && tail[k - i] == nodes[k]);
                lemma_spans_ordered(tail, 0, k - i);
            }
        }
    }
}

/// Joining two neighbours of the same height keeps the skyline and its
/// profile.
proof fn lemma_join_step(nodes: Seq<Node>, i: int, size: int, heights: spec_fn(int) -> int)
    requires
        skyline_wf(nodes, size),
        has_profile(nodes, heights),
        size - 1 <= u32::MAX,
        0 <= i,
        i + 1 < nodes.len(),
        nodes[i].y == nodes[i + 1].y,
    ensures
        nodes[i].width + nodes[i + 1].width <= u32::MAX,
        skyline_wf(
            nodes.update(
                i,
                Node {
                    x: nodes[i].x,
                    y: nodes[i].y,
                    width: (nodes[i].width + nodes[i + 1].width) as u32,
                },
            ).remove(i + 1),
            size,
        ),
        has_profile(
            nodes.update(
                i,
                Node {
                    x: nodes[i].x,
                    y: nodes[i].y,
                    width: (nodes[i].width + nodes[i + 1].width) as u32,
                },
            ).remove(i + 1),
            heights,
        ),
{
    assert(nodes[i + 1].x == nodes[i].x + nodes[i].width);
    if i + 2 < nodes.len() {
        lemma_spans_ordered(nodes, i + 1, nodes.len() - 1);
    }
    let wide = Node {
        x: nodes[i].x,
        y: nodes[i].y,
        width: (nodes[i].width + nodes[i + 1].width) as u32,
    };
    let out = nodes.update(i, wide).remove(i + 1);
    assert forall|k: int| 0 <= k < out.len() implies #[trigger] out[k] == (if k < i {
        nodes[k]
    } else if k == i {
        wide
    } else {
        nodes[k + 1]
    }) by {}
    assert forall|a: int, b: int|
        #![trigger out[a], out[b]]
        0 <= a && b == a + 1 && b < out.len() implies out[b].x == out[a].x + out[a].width by {
        if a == i {
            assert(nodes[i + 2].x == nodes[i + 1].x + nodes[i + 1].width);
        } else if a < i {
            assert(nodes[b].x == nodes[a].x + nodes[a].width);
        } else {
            assert(nodes[b + 1].x == nodes[a + 1].x + nodes[a + 1].width);
        }
    }
    assert forall|k: int, px: int|
        0 <= k < out.len() && #[trigger] out[k].covers(px) implies out[k].y == heights(px) by {
        if k == i {
            assert(nodes[i].covers(px) || nodes[i + 1].covers(px));
        } else {
            assert(nodes[if k < i {
                k
            } else {
                k + 1
            }].covers(px));
        }
    }
    assert(out.last() == if i + 2 == nodes.len() {
        wide
    } else {
        nodes.last()
    });
}

proof fn lemma_joined(nodes: Seq<Node>, i: int, size: int, heights: spec_fn(int) -> int)
    requires
        skyline_wf(nodes, size),
        has_profile(nodes, heights),
        size - 1 <= u32::MAX,
        0 <= i,
    ensures
        skyline_wf(joined(nodes, i), size),
        has_profile(joined(nodes, i), heights),
    decreases nodes.len() - i,
{
    if i + 1 < nodes.len() {
        if nodes[i].y == nodes[i + 1].y {
            lemma_join_step(nodes, i, size, heights);
            let wide = Node {
                x: nodes[i].x,
                y: nodes[i].y,
                width: (nodes[i].width + nodes[i + 1].width) as u32,
            };
            lemma_joined(nodes.update(i, wide).remove(i + 1), i, size, heights);
        } else {
            lemma_joined(nodes, i + 1, size, heights);
        }
    }
}

/// The heights after a rectangle over columns `left .. right` was placed with
/// its bottom edge at `bottom`.
spec fn raised(nodes: Seq<Node>, left: int, right: int, bottom: int) -> spec_fn(int) -> int {
    |px: int|
        if left <= px < right {
            bottom
        } else {
            level(nodes, px)
        }
}

/// What the skyline looks like just before its overlapped spans are cut back.
proof fn lemma_inserted(
    nodes: Seq<Node>,
    size: int,
    idx: int,
    row: int,
    width: int,
    height: int,
)
    requires
        skyline_wf(nodes, size),
        size - 1 <= u32::MAX,
        0 <= idx < nodes.len(),
        0 <= width,
        0 <= height,
        resting_row(nodes, size, idx, width, height) == Some(row),
    ensures
        ({
            let left = nodes[idx].x as int;
            let placed = Node {
                x: nodes[idx].x,
                y: (row + height) as u32,
                width: width as u32,
            };
            let trimmed = cut_back(nodes.insert(idx, placed), idx + 1, left + width);
            &&& skyline_wf(trimmed, size)
            &&& has_profile(trimmed, raised(nodes, left, left + width, row + height))
        }),
{
    let left = nodes[idx].x as int;
    let right = left + width;
    let placed = Node { x: nodes[idx].x, y: (row + height) as u32, width: width as u32 };
    let all = nodes.insert(idx, placed);
    let heights = raised(nodes, left, right, row + height);
    lemma_tallest_bounds(nodes, idx, right);
    assert forall|k: int| 0 <= k < all.len() implies #[trigger] all[k] == (if k < idx {
        nodes[k]
    } else if k == idx {
        placed
    } else {
        nodes[k - 1]
    }) by {}
    assert forall|a: int, b: int|
        #![trigger all.take(idx + 1)[a], all.take(idx + 1)[b]]
        0 <= a && b == a + 1 && b < idx + 1 implies all.take(idx + 1)[b].x == all.take(idx + 1)[a].x
        + all.take(idx + 1)[a].width by {
        assert(nodes[b].x == nodes[a].x + nodes[a].width);
    }
    assert(all.skip(idx + 1) =~= nodes.skip(idx));
    assert forall|a: int, b: int|
        #![trigger nodes.skip(idx)[a], nodes.skip(idx)[b]]
        0 <= a && b == a + 1 && b < nodes.skip(idx).len() implies nodes.skip(idx)[b].x
        == nodes.skip(idx)[a].x + nodes.skip(idx)[a].width by {
        assert(nodes[idx + b].x == nodes[idx + a].x + nodes[idx + a].width);
    }
    if idx > 0 {
        assert(all[0] == nodes[0]);
    }
    assert(all.last() == nodes.last());
    lemma_own_profile(nodes);
    assert forall|k: int, px: int|
        0 <= k < all.len() && #[trigger] all[k].covers(px) && (k < idx + 1 || px
            >= right) implies all[k].y == heights(px) by {
        if k < idx {
            lemma_spans_ordered(nodes, k, idx);
            assert(nodes[k].covers(px));
        } else if k > idx {
            assert(nodes[k - 1].covers(px));
        }
    }
    lemma_cut_back(all, idx + 1, right, size, heights);
}

/// Placing a rectangle where it rests keeps the skyline well-formed, raises
/// it to the rectangle's bottom edge over the rectangle's columns and leaves
/// every other column alone. The rectangle rests on or above all that was
/// there.
pub proof fn lemma_place(
    nodes: Seq<Node>,
    size: int,
    idx: int,
    row: int,
    width: int,
    height: int,
)
    requires
        skyline_wf(nodes, size),
        size - 1 <= u32::MAX,
        0 <= idx < nodes.len(),
        0 <= width,
        0 <= height,
        resting_row(nodes, size, idx, width, height) == Some(row),
    ensures
        skyline_wf(skyline_after(nodes, idx, row, width, height), size),
        forall|px: int|
            1 <= px < size - 1 ==> #[trigger] level(
                skyline_after(nodes, idx, row, width, height),
                px,
            ) == if nodes[idx].x <= px < nodes[idx].x + width {
                row + height
            } else {
                level(nodes, px)
            },
        forall|px: int|
            nodes[idx].x <= px < nodes[idx].x + width ==> #[trigger] level(nodes, px) <= row,
        1 <= row,
        1 <= nodes[idx].x,
        nodes[idx].x + width <= size - 1,
        width > 0 ==> row + height <= size - 1,
        row + height <= u32::MAX,
{
    let left = nodes[idx].x as int;
    let right = left + width;
    let placed = Node { x: nodes[idx].x, y: (row + height) as u32, width: width as u32 };
    let trimmed = cut_back(nodes.insert(idx, placed), idx + 1, right);
    let heights = raised(nodes, left, right, row + height);
    lemma_inserted(nodes, size, idx, row, width, height);
    lemma_joined(trimmed, 0, size, heights);
    lemma_tallest_bounds(nodes, idx, right);
    let after = skyline_after(nodes, idx, row, width, height);
    assert(after == joined(trimmed, 0));
    assert forall|px: int| 1 <= px < size - 1 implies #[trigger] level(after, px) == (if left <= px
        < right {
        row + height
    } else {
        level(nodes, px)
    }) by {
        lemma_profile_is_level(after, size, heights, px);
    }
    if idx > 0 {
        lemma_spans_ordered(nodes, 0, idx);
    }
    assert forall|px: int| left <= px < right implies #[trigger] level(nodes, px) <= row by {
        let k = lemma_column_has_span(nodes, size, px, idx);
        lemma_level_from(nodes, 0, k, px);
        lemma_tallest_covers(nodes, idx, right, k);
    }
}

/// A span without columns is as low as a span can be.
pub open spec fn bare_spans_low(nodes: Seq<Node>) -> bool {
    forall|i: int| 0 <= i < nodes.len() && (#[trigger] nodes[i]).width == 0 ==> nodes[i].y == 1
}

proof fn lemma_cut_back_low(nodes: Seq<Node>, i: int, right: int)
    requires
        bare_spans_low(nodes),
    ensures
        bare_spans_low(cut_back(nodes, i, right)),
    decreases nodes.len(),
{
    if 0 <= i < nodes.len() && nodes[i].x < right && nodes[i].x + nodes[i].width <= right {
        let out = nodes.remove(i);
        assert forall|k: int| 0 <= k < out.len() && (#[trigger] out[k]).width == 0 implies out[k].y
            == 1 by {
            assert(out[k] == nodes[if k < i {
                k
            } else {
                k + 1
            }]);
        }
        lemma_cut_back_low(out, i, right);
    }
}

proof fn lemma_joined_low(nodes: Seq<Node>, i: int, size: int, heights: spec_fn(int) -> int)
    requires
        skyline_wf(nodes, size),
        has_profile(nodes, heights),
        size - 1 <= u32::MAX,
        0 <= i,
        bare_spans_low(nodes),
    ensures
        bare_spans_low(joined(nodes, i)),
    decreases nodes.len() - i,
{
    if i + 1 < nodes.len() {
        if nodes[i].y == nodes[i + 1].y {
            lemma_join_step(nodes, i, size, heights);
            let wide = Node {
                x: nodes[i].x,
                y: nodes[i].y,
                width: (nodes[i].width + nodes[i + 1].width) as u32,
            };
            let out = nodes.update(i, wide).remove(i + 1);
            assert forall|k: int|
                0 <= k < out.len() && (#[trigger] out[k]).width == 0 implies out[k].y == 1 by {
                if k < i {
                    assert(out[k] == nodes[k]);
                } else if k > i {
                    assert(out[k] == nodes[k + 1]);
                }
            }
            lemma_joined_low(out, i, size, heights);
        } else {
            lemma_joined_low(nodes, i + 1, size, heights);
        }
    }
}

/// Placing a rectangle that has columns leaves spans without columns low.
pub(crate) proof fn lemma_place_low(
    nodes: Seq<Node>,
    size: int,
    idx: int,
    row: int,
    width: int,
    height: int,
)
    requires
        skyline_wf(nodes, size),
        size - 1 <= u32::MAX,
        bare_spans_low(nodes),
        0 <= idx < nodes.len(),
        0 < width,
        0 <= height,
        resting_row(nodes, size, idx, width, height) == Some(row),
    ensures
        bare_spans_low(skyline_after(nodes, idx, row, width, height)),
{
    let left = nodes[idx].x as int;
    let right = left + width;
    let placed = Node { x: nodes[idx].x, y: (row + height) as u32, width: width as u32 };
    let all = nodes.insert(idx, placed);
    assert forall|k: int| 0 <= k < all.len() && (#[trigger] all[k]).width == 0 implies all[k].y
        == 1 by {
        if k < idx {
            assert(all[k] == nodes[k]);
        } else if k > idx {
            assert(all[k] == nodes[k - 1]);
        }
    }
    lemma_cut_back_low(all, idx + 1, right);
    lemma_inserted(nodes, size, idx, row, width, height);
    lemma_joined_low(
        cut_back(all, idx + 1, right),
        0,
        size,
        raised(nodes, left, right, row + height),
    );
}

/// A chosen place is one where the rectangle rests.
pub proof fn lemma_best_place(nodes: Seq<Node>, size: int, width: int, height: int, n: int)
    ensures
        best_place(nodes, size, width, height, n) matches Some((idx, row)) ==> 0 <= idx < n
            && resting_row(nodes, size, idx, width, height) == Some(row),
    decreases n,
{
    if n > 0 {
        lemma_best_place(nodes, size, width, height, n - 1);
    }
}

/// The rows of the region lie above the skyline over each of its columns.
pub open spec fn is_taken(nodes: Seq<Node>, region: Region) -> bool {
    forall|px: int|
        region.x <= px < region.x + region.width ==> region.y + region.height <= #[trigger] level(
            nodes,
            px,
        )
}

/// The region keeps clear of the one-pixel border.
pub open spec fn is_interior(region: Region, size: int) -> bool {
    &&& 1 <= region.x
    &&& region.x + region.width <= size - 1
    &&& 1 <= region.y
    &&& region.y + region.height <= size - 1
}

/// A count one higher, starting over after the last value.
pub open spec fn bumped(count: u64) -> u64 {
    if count == u64::MAX {
        0
    } else {
        (count + 1) as u64
    }
}

/// `dst` (rows of `stride` bytes) with a rectangle of bytes replaced: `height`
/// rows from row `y`, `len` bytes from byte `x` of each. Row `r` of the
/// rectangle comes from byte `src_start + r * src_stride` of `src`.
pub open spec fn blit(
    dst: Seq<u8>,
    stride: int,
    x: int,
    y: int,
    len: int,
    height: int,
    src: Seq<u8>,
    src_start: int,
    src_stride: int,
) -> Seq<u8> {
    Seq::new(
        dst.len(),
        |k: int|
            if y <= k / stride < y + height && x <= k % stride < x + len {
                src[src_start + (k / stride - y) * src_stride + (k % stride - x)]
            } else {
                dst[k]
            },
    )
}

/// The region that `reserve` answers with when it places a rectangle on span
/// `idx` at `row`.
pub open spec fn placed_region(
    nodes: Seq<Node>,
    idx: int,
    row: int,
    width: u32,
    height: u32,
) -> Region {
    Region { x: nodes[idx].x, y: row as u32, width, height }
}

/// What an atlas holds.
#[verifier::ext_equal]
pub struct AtlasModel {
    /// The bytes of the texture, row by row.
    pub pixels: Seq<u8>,
    /// The side length.
    pub side: int,
    /// The spans of the skyline, from left to right.
    pub skyline: Seq<Node>,
    /// The pixel format.
    pub format: Format,
    /// How often the atlas was modified, starting over after the last value.
    pub modified: u64,
    /// How often the atlas was resized, starting over after the last value.
    pub resized: u64,
}

impl AtlasModel {
    /// An atlas of this side length and format can exist: its bytes can be
    /// counted in 32 bits.
    pub open spec fn fits(side: int, format: Format) -> bool {
        2 <= side && side * (side * format.bytes()) <= u32::MAX
    }

    /// Bytes per row of the texture.
    pub open spec fn stride(self) -> int {
        self.side * self.format.bytes()
    }

    /// The texture has the size that its side and format call for, and the
    /// skyline spans the interior.
    pub open spec fn wf(self) -> bool {
        &&& AtlasModel::fits(self.side, self.format)
        &&& self.side <= u32::MAX
        &&& self.pixels.len() == self.side * self.stride()
        &&& skyline_wf(self.skyline, self.side)
    }

    /// A blank atlas.
    pub open spec fn empty(side: int, format: Format) -> AtlasModel {
        AtlasModel {
            pixels: Seq::new((side * (side * format.bytes())) as nat, |k: int| 0u8),
            side,
            skyline: empty_skyline(side),
            format,
            modified: 0,
            resized: 0,
        }
    }

    /// The region that a request is given, and the atlas after it. An empty
    /// request is given the origin and takes nothing.
    pub open spec fn reserved(self, width: u32, height: u32) -> Option<(Region, AtlasModel)> {
        if width == 0 && height == 0 {
            Some((Region { x: 0, y: 0, width: 0, height: 0 }, self))
        } else {
            match best_place(
                self.skyline,
                self.side,
                width as int,
                height as int,
                self.skyline.len() as int,
            ) {
                Some((idx, row)) => Some(
                    (
                        placed_region(self.skyline, idx, row, width, height),
                        AtlasModel {
                            skyline: skyline_after(
                                self.skyline,
                                idx,
                                row,
                                width as int,
                                height as int,
                            ),
                            modified: bumped(self.modified),
                            ..self
                        },
                    ),
                ),
                None => None,
            }
        }
    }

    /// The atlas with a region filled from a source whose rows are
    /// `src_stride` bytes apart, beginning at byte `src_start`.
    pub open spec fn written(
        self,
        reg: Region,
        src: Seq<u8>,
        src_start: int,
        src_stride: int,
    ) -> AtlasModel {
        AtlasModel {
            pixels: blit(
                self.pixels,
                self.stride(),
                reg.x * self.format.bytes(),
                reg.y as int,
                reg.width * self.format.bytes(),
                reg.height as int,
                src,
                src_start,
                src_stride,
            ),
            modified: bumped(self.modified),
            ..self
        }
    }

    /// The atlas with a larger side. Everything keeps its coordinates; the old
    /// first and last row, which are border, are not carried over.
    pub open spec fn grown(self, new_side: int) -> AtlasModel {
        if new_side == self.side {
            self
        } else {
            AtlasModel {
                pixels: blit(
                    Seq::new((new_side * (new_side * self.format.bytes())) as nat, |k: int| 0u8),
                    new_side * self.format.bytes(),
                    0,
                    1,
                    self.stride(),
                    self.side - 2,
                    self.pixels,
                    self.stride(),
                    self.stride(),
                ),
                side: new_side,
                skyline: self.skyline.push(
                    Node {
                        x: (self.side - 1) as u32,
                        y: 1,
                        width: (new_side - self.side) as u32,
                    },
                ),
                format: self.format,
                modified: bumped(self.modified),
                resized: bumped(self.resized),
            }
        }
    }

    /// The atlas with nothing reserved and blank pixels.
    pub open spec fn cleared(self) -> AtlasModel {
        AtlasModel {
            pixels: Seq::new(self.pixels.len(), |k: int| 0u8),
            skyline: empty_skyline(self.side),
            modified: bumped(self.modified),
            ..self
        }
    }
}

/// A texture atlas that owns CPU-side pixel data and a skyline allocator.
pub struct Atlas {
    data: Vec<u8>,
    size: u32,
    nodes: Vec<Node>,
    format: Format,
    modified: u64,
    resized: u64,
}

impl View for Atlas {
    type V = AtlasModel;

    closed spec fn view(&self) -> AtlasModel {
        AtlasModel {
            pixels: self.data@,
            side: self.size as int,
            skyline: self.nodes@,
            format: self.format,
            modified: self.modified,
            resized: self.resized,
        }
    }
}

impl Atlas {
    /// The model is a valid atlas.
    pub open spec fn wf(&self) -> bool {
        self@.wf()
    }

    /// Creates an empty atlas with the given side length and format.
    pub fn new(size: u32, format: Format) -> (atlas: Atlas)
        requires
            AtlasModel::fits(size as int, format),
        ensures
            atlas.wf(),
            atlas@ == AtlasModel::empty(size as int, format),
    {
        let len = byte_len(size, format);
        let data = vec![0u8; len];
        let mut nodes: Vec<Node> = Vec::with_capacity(NODE_PREALLOC);
        nodes.push(Node { x: 1, y: 1, width: size - 2 });
        let atlas = Atlas { data, size, nodes, format, modified: 0, resized: 0 };
        assert(atlas@ =~= AtlasModel::empty(size as int, format));
        atlas
    }

    /// Current side length.
    pub fn size(&self) -> (size: u32)
        ensures
            size == self@.side,
    {
        self.size
    }

    /// Pixel format.
    pub fn format(&self) -> (format: Format)
        ensures
            format == self@.format,
    {
        self.format
    }

    /// Raw pixel data, row by row.
    pub fn data(&self) -> (data: &[u8])
        ensures
            data@ == self@.pixels,
    {
        self.data.as_slice()
    }

    /// Mutation count: a renderer that holds an older one has to upload again.
    pub fn modified(&self) -> (count: u64)
        ensures
            count == self@.modified,
    {
        self.modified
    }

    /// Resize count: a renderer that holds an older one has to create its
    /// texture again.
    pub fn resized(&self) -> (count: u64)
        ensures
            count == self@.resized,
    {
        self.resized
    }

    /// The row at which a rectangle rests on span `idx`.
    fn fit(&self, idx: usize, width: u32, height: u32) -> (row: Option<u32>)
        requires
            self.wf(),
            idx < self@.skyline.len(),
        ensures
            row matches Some(y) ==> resting_row(
                self@.skyline,
                self@.side,
                idx as int,
                width as int,
                height as int,
            ) == Some(y as int),
            row is None ==> resting_row(
                self@.skyline,
                self@.side,
                idx as int,
                width as int,
                height as int,
            ) is None,
    {
        let node = self.nodes[idx];
        let limit: u32 = self.size - 1;
        proof {
            lemma_spans_end(self.nodes@, self@.side, idx as int);
        }
        if width > limit - node.x {
            return None;
        }
        let ghost nodes = self.nodes@;
        let ghost right = node.x + width;
        let mut y: u32 = node.y;
        let mut i: usize = idx;
        let mut width_left: u32 = width;
        while width_left > 0
            invariant
                self.wf(),
                nodes == self.nodes@,
                limit == self.size - 1,
                idx < nodes.len(),
                idx <= i <= nodes.len(),
                right == nodes[idx as int].x + width,
                right <= limit,
                width_left > 0 ==> i < nodes.len() && nodes[i as int].x == right - width_left,
                width_left == 0 && i < nodes.len() ==> nodes[i as int].x >= right,
                y >= nodes[idx as int].y,
                width == 0 ==> width_left == 0 && i == idx,
                i > idx ==> y + height <= limit,
                ({
                    let under = tallest(nodes, idx as int, right);
                    let ahead = tallest(nodes, i as int, right);
                    let floor = nodes[idx as int].y;
                    (if floor > under { floor as int } else { under }) == (if y > ahead {
                        y as int
                    } else {
                        ahead
                    })
                }),
            decreases nodes.len() - i,
        {
            assert(i < self.nodes.len());
            let n = self.nodes[i];
            if n.y > y {
                y = n.y;
            }
            proof {
                lemma_tallest_bounds(nodes, i as int + 1, right);
            }
            if height > limit || y > limit - height {
                return None;
            }
            proof {
                lemma_spans_end(nodes, self@.side, i as int);
                if i + 1 < nodes.len() {
                    assert(nodes[i as int + 1].x == nodes[i as int].x + nodes[i as int].width);
                } else {
                    assert(nodes.last() == nodes[i as int]);
                }
            }
            width_left = width_left.saturating_sub(n.width);
            i += 1;
        }
        proof {
            lemma_tallest_bounds(nodes, i as int, right);
        }
        if y > u32::MAX - height {
            return None;
        }
        Some(y)
    }

    /// Reserves a region of `width` by `height` pixels.
    ///
    /// Returns an error if the atlas cannot fit it. The atlas does not grow by
    /// itself: the caller grows it and tries again. An empty request is
    /// answered with the origin and takes nothing.
    pub fn reserve(&mut self, width: u32, height: u32) -> (reserved: Result<Region, AtlasFullError>)
        requires
            old(self).wf(),
        ensures
            final(self).wf(),
            match old(self)@.reserved(width, height) {
                Some((region, after)) => {
                    &&& reserved == Ok::<Region, AtlasFullError>(region)
                    &&& final(self)@ == after
                },
                None => reserved == Err::<Region, AtlasFullError>(AtlasFullError) && final(self)@
                    == old(self)@,
            },
    {
        if width == 0 && height == 0 {
            return Ok(Region { x: 0, y: 0, width: 0, height: 0 });
        }
        let mut region = Region { x: 0, y: 0, width, height };
        let mut best_height: u32 = u32::MAX;
        let mut best_width: u32 = u32::MAX;
        let mut chosen: Option<usize> = None;
        let ghost nodes = self.nodes@;
        let ghost size = self@.side;
        let mut i: usize = 0;
        while i < self.nodes.len()
            invariant
                self.wf(),
                *self == *old(self),
                nodes == self.nodes@,
                size == self@.side,
                i <= nodes.len(),
                region.width == width,
                region.height == height,
                ({
                    let best = best_place(nodes, size, width as int, height as int, i as int);
                    &&& best_height == bottom_to_beat(best, height as int)
                    &&& best_width == width_to_beat(nodes, best)
                    &&& match best {
                        Some((idx, row)) => {
                            &&& chosen == Some(idx as usize)
                            &&& 0 <= idx < i
                            &&& region.x == nodes[idx].x
                            &&& region.y == row
                            &&& row + height <= u32::MAX
                        },
                        None => chosen is None,
                    }
                }),
            decreases nodes.len() - i,
        {
            let fitted = self.fit(i, width, height);
            if let Some(y) = fitted {
                let node = self.nodes[i];
                proof {
                    lemma_tallest_bounds(nodes, i as int, nodes[i as int].x + width);
                }
                let bottom: u32 = y + height;
                if bottom < best_height || (bottom == best_height && node.width > 0 && node.width
                    < best_width) {
                    chosen = Some(i);
                    best_width = node.width;
                    best_height = bottom;
                    region.x = node.x;
                    region.y = y;
                }
            }
            i += 1;
        }
        let best_idx: usize = match chosen {
            Some(idx) => idx,
            None => {
                return Err(AtlasFullError);
            },
        };
        let ghost idx = best_idx as int;
        let ghost row = region.y as int;
        proof {
            lemma_best_place(nodes, size, width as int, height as int, nodes.len() as int);
            lemma_place(nodes, size, idx, row, width as int, height as int);
        }
        self.nodes.insert(best_idx, Node { x: region.x, y: region.y + height, width });
        let right: u32 = region.x + width;
        let first: usize = best_idx + 1;
        let ghost inserted = self.nodes@;
        while first < self.nodes.len() && self.nodes[first].x < right
            invariant_except_break
                cut_back(self.nodes@, first as int, right as int) == cut_back(
                    inserted,
                    first as int,
                    right as int,
                ),
            invariant
                self.size == old(self).size,
                self.data@ == old(self).data@,
                self.format == old(self).format,
                self.modified == old(self).modified,
                self.resized == old(self).resized,
            ensures
                self.nodes@ == cut_back(inserted, first as int, right as int),
            decreases self.nodes.len(),
        {
            let node = self.nodes[first];
            let shrink: u32 = right - node.x;
            if node.width <= shrink {
                let _ = self.nodes.remove(first);
            } else {
                let kept = Node { x: right, y: node.y, width: node.width - shrink };
                self.nodes.set(first, kept);
                break;
            }
        }
        proof {
            lemma_inserted(nodes, size, idx, row, width as int, height as int);
        }
        self.merge(Ghost(raised(nodes, region.x as int, right as int, row + height)));
        self.modified = self.modified.wrapping_add(1);
        Ok(region)
    }

    /// Copies rows of packed source bytes into a region.
    fn copy_rows(&mut self, reg: Region, src: &[u8], src_start: usize, src_stride: usize)
        requires
            old(self).wf(),
            reg.writable(old(self)@.side),
            reg.height > 0 ==> src_start + (reg.height - 1) * src_stride + reg.width * old(self)@.format.bytes() <= src.len(),
        ensures
            final(self)@.pixels == blit(
                old(self)@.pixels,
                old(self)@.stride(),
                reg.x * old(self)@.format.bytes(),
                reg.y as int,
                reg.width * old(self)@.format.bytes(),
                reg.height as int,
                src@,
                src_start as int,
                src_stride as int,
            ),
            final(self).nodes == old(self).nodes,
            final(self).size == old(self).size,
            final(self).format == old(self).format,
            final(self).modified == old(self).modified,
            final(self).resized == old(self).resized,
    {
        let depth = self.format.depth();
        let ghost before = self.data@;
        let ghost stride = self@.stride();
        let ghost side = self@.side;
        proof {
            assert(stride <= side * stride) by (nonlinear_arith)
                requires
                    stride >= 0,
                    side >= 2,
            ;
            assert(stride >= side);
            assert(reg.x * depth + reg.width * depth <= stride) by (nonlinear_arith)
                requires
                    reg.x + reg.width < side,
                    stride == side * depth,
                    depth >= 0,
            ;
            assert(reg.x * depth >= 0 && reg.width * depth >= 0) by (nonlinear_arith)
                requires
                    depth >= 0,
            ;
        }
        let row_stride: usize = (self.size * depth) as usize;
        let left: usize = (reg.x * depth) as usize;
        let row_bytes: usize = (reg.width * depth) as usize;
        let mut row: u32 = 0;
        while row < reg.height
            invariant
                row <= reg.height,
                reg.writable(side),
                side <= u32::MAX,
                side * stride <= u32::MAX,
                before.len() == side * stride,
                row_stride == stride,
                stride > 0,
                left + row_bytes <= stride,
                left >= 0,
                reg.height > 0 ==> src_start + (reg.height - 1) * src_stride + row_bytes
                    <= src.len(),
                self.data@ == blit(
                    before,
                    stride,
                    left as int,
                    reg.y as int,
                    row_bytes as int,
                    row as int,
                    src@,
                    src_start as int,
                    src_stride as int,
                ),
                self.nodes == old(self).nodes,
                self.size == old(self).size,
                self.format == old(self).format,
                self.modified == old(self).modified,
                self.resized == old(self).resized,
            decreases reg.height - row,
        {
            proof {
                assert(row * src_stride <= (reg.height - 1) * src_stride) by (nonlinear_arith)
                    requires
                        row <= reg.height - 1,
                        src_stride >= 0,
                ;
                assert(row * src_stride >= 0) by (nonlinear_arith)
                    requires
                        src_stride >= 0,
                ;
                assert((reg.y + row) * stride + stride <= side * stride) by (nonlinear_arith)
                    requires
                        reg.y + row + 1 <= side,
                        stride >= 0,
                ;
                assert((reg.y + row) * stride >= 0) by (nonlinear_arith)
                    requires
                        stride >= 0,
                ;
            }
            let from: usize = src_start + (row as usize) * src_stride;
            let y: usize = reg.y as usize + row as usize;
            assert(y * row_stride == (reg.y + row) * stride);
            let to: usize = y * row_stride + left;
            let mut b: usize = 0;
            let ghost upto = self.data@;
            while b < row_bytes
                invariant
                    b <= row_bytes,
                    row < reg.height,
                    from == src_start + row * src_stride,
                    to == (reg.y + row) * stride + left,
                    from + row_bytes <= src.len(),
                    to + row_bytes <= before.len(),
                    left + row_bytes <= stride,
                    stride > 0,
                    self.data@.len() == before.len(),
                    upto.len() == before.len(),
                    forall|k: int|
                        0 <= k < before.len() ==> #[trigger] self.data@[k] == (if to <= k < to + b {
                            src@[from + (k - to)]
                        } else {
                            upto[k]
                        }),
                    self.nodes == old(self).nodes,
                    self.size == old(self).size,
                    self.format == old(self).format,
                    self.modified == old(self).modified,
                    self.resized == old(self).resized,
                decreases row_bytes - b,
            {
                let byte = src[from + b];
                assert(self.data.len() == before.len());
                self.data.set(to + b, byte);
                b += 1;
            }
            proof {
                let y = reg.y + row;
                assert forall|k: int| 0 <= k < before.len() implies self.data@[k] == blit(
                    before,
                    stride,
                    left as int,
                    reg.y as int,
                    row_bytes as int,
                    row + 1,
                    src@,
                    src_start as int,
                    src_stride as int,
                )[k] by {
                    lemma_row_of(k, stride, y, left as int, row_bytes as int);
                }
                assert(self.data@ =~= blit(
                    before,
                    stride,
                    left as int,
                    reg.y as int,
                    row_bytes as int,
                    row + 1,
                    src@,
                    src_start as int,
                    src_stride as int,
                ));
            }
            row += 1;
        }
    }

    /// Writes packed pixel data into a region.
    pub fn set(&mut self, reg: Region, data: &[u8])
        requires
            old(self).wf(),
            reg.writable(old(self)@.side),
            reg.height * (reg.width * old(self)@.format.bytes()) <= data.len(),
        ensures
            final(self).wf(),
            final(self)@ == old(self)@.written(
                reg,
                data@,
                0,
                reg.width * old(self)@.format.bytes(),
            ),
    {
        let depth = self.format.depth();
        proof {
            lemma_row_fits(reg.x as int, reg.width as int, self@.side, depth as int);
            assert(reg.height > 0 ==> (reg.height - 1) * (reg.width * depth) + reg.width * depth
                == reg.height * (reg.width * depth)) by (nonlinear_arith);
        }
        let row_bytes: usize = (reg.width * depth) as usize;
        self.copy_rows(reg, data, 0, row_bytes);
        self.modified = self.modified.wrapping_add(1);
    }

    /// Writes a sub-rectangle of a larger source, `src_width` pixels wide,
    /// that starts at column `src_x` and row `src_y` of it.
    pub fn set_from_larger(
        &mut self,
        reg: Region,
        src: &[u8],
        src_width: u32,
        src_x: u32,
        src_y: u32,
    )
        requires
            old(self).wf(),
            reg.writable(old(self)@.side),
            reg.height > 0 ==> ((src_y + reg.height - 1) * src_width + src_x + reg.width) * old(self)@.format.bytes() <= src.len(),
        ensures
            final(self).wf(),
            final(self)@ == old(self)@.written(
                reg,
                src@,
                (src_y * src_width + src_x) * old(self)@.format.bytes(),
                src_width * old(self)@.format.bytes(),
            ),
    {
        let depth = self.format.depth();
        if reg.height > 0 {
            proof {
                let d = depth as int;
                let rows = reg.height - 1;
                let first = (src_y * src_width + src_x) * d;
                assert(src_y * src_width >= 0 && (src_y + rows) * src_width >= src_y * src_width
                    && (src_y + rows) * src_width == src_y * src_width + rows * src_width && rows
                    * src_width >= 0 && src_width <= (src_y + reg.height) * src_width)
                    by (nonlinear_arith)
                    requires
                        rows == reg.height - 1,
                        reg.height > 0,
                        src_y >= 0,
                        src_width >= 0,
                ;
                assert(((src_y + rows) * src_width + src_x + reg.width) * d == first + rows * (
                src_width * d) + reg.width * d) by (nonlinear_arith)
                    requires
                        (src_y + rows) * src_width == src_y * src_width + rows * src_width,
                        first == (src_y * src_width + src_x) * d,
                ;
                assert(first >= src_y * src_width + src_x && reg.width * d >= 0 && rows * (src_width
                    * d) >= 0 && src_width * d >= 0) by (nonlinear_arith)
                    requires
                        first == (src_y * src_width + src_x) * d,
                        d >= 1,
                        src_y * src_width >= 0,
                        src_x >= 0,
                        rows >= 0,
                        src_width >= 0,
                ;
                assert(src_width * d <= u32::MAX * 4) by (nonlinear_arith)
                    requires
                        0 <= src_width <= u32::MAX,
                        1 <= d <= 4,
                ;
            }
            let start: usize = ((src_y as usize) * (src_width as usize) + src_x as usize) * (
            depth as usize);
            let stride: u64 = (src_width as u64) * (depth as u64);
            if reg.height > 1 {
                proof {
                    assert(stride <= (reg.height - 1) * stride) by (nonlinear_arith)
                        requires
                            reg.height > 1,
                            stride >= 0,
                    ;
                }
                self.copy_rows(reg, src, start, stride as usize);
            } else {
                self.copy_rows(reg, src, start, 0);
                assert(self@.pixels =~= blit(
                    old(self)@.pixels,
                    old(self)@.stride(),
                    reg.x * depth,
                    reg.y as int,
                    reg.width * depth,
                    reg.height as int,
                    src@,
                    (src_y * src_width + src_x) * depth,
                    src_width * depth,
                )) by {
                    lemma_single_row(
                        old(self)@.pixels,
                        old(self)@.stride(),
                        reg.x * depth,
                        reg.y as int,
                        reg.width * depth,
                        src@,
                        start as int,
                        stride as int,
                    );
                }
            }
        } else {
            assert(self@.pixels =~= blit(
                old(self)@.pixels,
                old(self)@.stride(),
                reg.x * depth,
                reg.y as int,
                reg.width * depth,
                reg.height as int,
                src@,
                (src_y * src_width + src_x) * depth,
                src_width * depth,
            ));
        }
        self.modified = self.modified.wrapping_add(1);
    }

    /// Grows the atlas to `new_size`: pixels and regions keep their
    /// coordinates. The old first and last row, which are border, are not
    /// carried over.
    pub fn grow(&mut self, new_size: u32)
        requires
            old(self).wf(),
            new_size >= old(self)@.side,
            AtlasModel::fits(new_size as int, old(self)@.format),
        ensures
            final(self).wf(),
            final(self)@ == old(self)@.grown(new_size as int),
    {
        if new_size == self.size {
            return;
        }
        let depth = self.format.depth();
        let len = byte_len(new_size, self.format);
        let old_size: u32 = self.size;
        let mut old_data = vec![0u8; len];
        let ghost blank = old_data@;
        std::mem::swap(&mut old_data, &mut self.data);
        self.size = new_size;
        let ghost stride = old_size * depth;
        proof {
            assert(stride <= old_size * stride) by (nonlinear_arith)
                requires
                    stride >= 0,
                    old_size >= 2,
            ;
            assert(old_size > 2 ==> stride + (old_size - 3) * stride + stride == (old_size - 1)
                * stride && (old_size - 1) * stride <= old_size * stride) by (nonlinear_arith)
                requires
                    stride >= 0,
            ;
            assert(skyline_wf(self.nodes@, old_size as int));
        }
        let row_bytes: usize = (old_size * depth) as usize;
        let reg = Region { x: 0, y: 1, width: old_size, height: old_size - 2 };
        let ghost widened = self.nodes@.push(
            Node { x: (old_size - 1) as u32, y: 1, width: (new_size - old_size) as u32 },
        );
        self.nodes.push(Node { x: old_size - 1, y: 1, width: new_size - old_size });
        proof {
            lemma_grown_skyline(old(self).nodes@, old_size as int, new_size as int);
            assert(0 * depth == 0);
        }
        self.copy_rows(reg, old_data.as_slice(), row_bytes, row_bytes);
        assert(blank =~= Seq::new(blank.len(), |k: int| 0u8));
        self.modified = self.modified.wrapping_add(1);
        self.resized = self.resized.wrapping_add(1);
    }

    /// Drops all allocations and blanks the pixels. The side stays.
    pub fn clear(&mut self)
        requires
            old(self).wf(),
        ensures
            final(self).wf(),
            final(self)@ == old(self)@.cleared(),
    {
        self.modified = self.modified.wrapping_add(1);
        let len = self.data.len();
        self.data.clear();
        self.data.resize(len, 0u8);
        self.nodes.clear();
        self.nodes.push(Node { x: 1, y: 1, width: self.size - 2 });
        assert(self@.skyline =~= empty_skyline(self@.side));
        assert(self@.pixels =~= Seq::new(old(self)@.pixels.len(), |k: int| 0u8));
    }

    /// Joins neighbouring spans of the same height.
    fn merge(&mut self, Ghost(heights): Ghost<spec_fn(int) -> int>)
        requires
            skyline_wf(old(self).nodes@, old(self)@.side),
            has_profile(old(self).nodes@, heights),
        ensures
            final(self).nodes@ == joined(old(self).nodes@, 0),
            final(self).data == old(self).data,
            final(self).size == old(self).size,
            final(self).format == old(self).format,
            final(self).modified == old(self).modified,
            final(self).resized == old(self).resized,
    {
        let mut i: usize = 0;
        while i + 1 < self.nodes.len()
            invariant
                joined(self.nodes@, i as int) == joined(old(self).nodes@, 0),
                skyline_wf(self.nodes@, self@.side),
                has_profile(self.nodes@, heights),
                i < self.nodes.len(),
                self.data == old(self).data,
                self.size == old(self).size,
                self.format == old(self).format,
                self.modified == old(self).modified,
                self.resized == old(self).resized,
            decreases self.nodes@.len() - i,
        {
            let left = self.nodes[i];
            let right = self.nodes[i + 1];
            if left.y == right.y {
                proof {
                    lemma_join_step(self.nodes@, i as int, self@.side, heights);
                }
                let wide = Node { x: left.x, y: left.y, width: left.width + right.width };
                self.nodes.set(i, wide);
                let _ = self.nodes.remove(i + 1);
            } else {
                i += 1;
            }
        }
    }
}

/// A span of a skyline ends within the interior.
proof fn lemma_spans_end(nodes: Seq<Node>, size: int, i: int)
    requires
        skyline_wf(nodes, size),
        0 <= i < nodes.len(),
    ensures
        1 <= nodes[i].x,
        nodes[i].x + nodes[i].width <= size - 1,
{
    if i > 0 {
        lemma_spans_ordered(nodes, 0, i);
    }
    if i + 1 < nodes.len() {
        lemma_spans_ordered(nodes, i, nodes.len() - 1);
    }
}

proof fn lemma_row_of(k: int, stride: int, y: int, left: int, len: int)
    requires
        k >= 0,
        stride > 0,
        0 <= left,
        left + len <= stride,
    ensures
        (y * stride + left <= k < y * stride + left + len) == (k / stride == y && left <= k % stride
            < left + len),
        y * stride + left <= k < y * stride + left + len ==> k - (y * stride + left) == k % stride
            - left,
{
    vstd::arithmetic::div_mod::lemma_fundamental_div_mod(k, stride);
    assert(stride * (k / stride) == (k / stride) * stride) by (nonlinear_arith);
    if y * stride + left <= k < y * stride + left + len {
        vstd::arithmetic::div_mod::lemma_fundamental_div_mod_converse(
            k,
            stride,
            y,
            k - y * stride,
        );
    }
}

proof fn lemma_row_fits(x: int, width: int, side: int, depth: int)
    by (nonlinear_arith)
    requires
        0 <= x,
        0 <= width,
        x + width < side,
        1 <= depth,
        side * (side * depth) <= u32::MAX,
        2 <= side,
    ensures
        0 <= width * depth <= side * depth <= u32::MAX,
{
}

/// With a single row the distance between source rows does not matter.
proof fn lemma_single_row(
    dst: Seq<u8>,
    stride: int,
    x: int,
    y: int,
    len: int,
    src: Seq<u8>,
    start: int,
    src_stride: int,
)
    ensures
        blit(dst, stride, x, y, len, 1, src, start, 0) == blit(
            dst,
            stride,
            x,
            y,
            len,
            1,
            src,
            start,
            src_stride,
        ),
{
    let a = blit(dst, stride, x, y, len, 1, src, start, 0);
    let b = blit(dst, stride, x, y, len, 1, src, start, src_stride);
    assert forall|k: int| 0 <= k < dst.len() implies a[k] == b[k] by {
        if y <= k / stride < y + 1 {
            assert((k / stride - y) * src_stride == 0) by (nonlinear_arith)
                requires
                    k / stride - y == 0,
            ;
            assert((k / stride - y) * 0 == 0);
        }
    }
    assert(a =~= b);
}

/// A wider texture adds one free span on the right.
proof fn lemma_grown_skyline(nodes: Seq<Node>, size: int, new_size: int)
    requires
        skyline_wf(nodes, size),
        2 <= size < new_size <= u32::MAX,
    ensures
        skyline_wf(
            nodes.push(Node { x: (size - 1) as u32, y: 1, width: (new_size - size) as u32 }),
            new_size,
        ),
{
    let node = Node { x: (size - 1) as u32, y: 1, width: (new_size - size) as u32 };
    let out = nodes.push(node);
    assert forall|a: int, b: int|
        #![trigger out[a], out[b]]
        0 <= a && b == a + 1 && b < out.len() implies out[b].x == out[a].x + out[a].width by {
        if b < nodes.len() {
            assert(nodes[b].x == nodes[a].x + nodes[a].width);
        } else {
            assert(nodes.last() == nodes[a]);
        }
    }
    assert forall|i: int| 0 <= i < out.len() implies (#[trigger] out[i]).y >= 1 && (out[i].width > 0
        ==> out[i].y <= new_size - 1) by {
        if i < nodes.len() {
            assert(nodes[i].y >= 1);
        }
    }
    assert(out.last() == node);
}

/// A reservation keeps clear of everything that was reserved before it, stays
/// off the border, and leaves both the earlier region and itself taken for
/// whatever comes next.
pub proof fn law_reservations_are_disjoint(
    nodes: Seq<Node>,
    size: int,
    earlier: Region,
    width: u32,
    height: u32,
)
    requires
        skyline_wf(nodes, size),
        size - 1 <= u32::MAX,
        is_interior(earlier, size),
        is_taken(nodes, earlier),
        width > 0 || height > 0,
        best_place(nodes, size, width as int, height as int, nodes.len() as int) is Some,
    ensures
        best_place(nodes, size, width as int, height as int, nodes.len() as int) matches Some(
            (idx, row),
        ) && ({
            let region = placed_region(nodes, idx, row, width, height);
            let after = skyline_after(nodes, idx, row, width as int, height as int);
            &&& skyline_wf(after, size)
            &&& width > 0 ==> is_interior(region, size)
            &&& is_taken(after, earlier)
            &&& is_taken(after, region)
            &&& forall|px: int, py: int|
                !(#[trigger] earlier.contains(px, py) && region.contains(px, py))
        }),
{
    lemma_best_place(nodes, size, width as int, height as int, nodes.len() as int);
    let (idx, row) = best_place(
        nodes,
        size,
        width as int,
        height as int,
        nodes.len() as int,
    ).unwrap();
    lemma_place(nodes, size, idx, row, width as int, height as int);
    let region = placed_region(nodes, idx, row, width, height);
    let after = skyline_after(nodes, idx, row, width as int, height as int);
    assert forall|px: int| region.x <= px < region.x + region.width implies region.y + region.height
        <= #[trigger] level(after, px) by {}
    assert forall|px: int|
        earlier.x <= px < earlier.x + earlier.width implies earlier.y + earlier.height
        <= #[trigger] level(after, px) by {
        assert(earlier.y + earlier.height <= level(nodes, px));
    }
    assert forall|px: int, py: int|
        !(#[trigger] earlier.contains(px, py) && region.contains(px, py)) by {
        if earlier.contains(px, py) && region.contains(px, py) {
            assert(earlier.y + earlier.height <= level(nodes, px));
            assert(level(nodes, px) <= row);
        }
    }
}

/// A reserved region has the size asked for and keeps clear of the border, so
/// it can be written.
pub proof fn law_reserved_region_is_interior(atlas: AtlasModel, width: u32, height: u32)
    requires
        atlas.wf(),
        width > 0,
        atlas.reserved(width, height) is Some,
    ensures
        atlas.reserved(width, height) matches Some((region, after)) && ({
            &&& region.width == width
            &&& region.height == height
            &&& is_interior(region, atlas.side)
            &&& height > 0 ==> region.writable(atlas.side)
            &&& after.side == atlas.side
            &&& after.format == atlas.format
            &&& after.wf()
        }),
{
    let n = atlas.skyline.len() as int;
    lemma_best_place(atlas.skyline, atlas.side, width as int, height as int, n);
    let (idx, row) = best_place(
        atlas.skyline,
        atlas.side,
        width as int,
        height as int,
        n,
    ).unwrap();
    lemma_place(atlas.skyline, atlas.side, idx, row, width as int, height as int);
}

/// A grown atlas is valid.
pub proof fn lemma_grown_wf(atlas: AtlasModel, new_side: int)
    requires
        atlas.wf(),
        atlas.side <= new_side <= u32::MAX,
        AtlasModel::fits(new_side, atlas.format),
    ensures
        atlas.grown(new_side).wf(),
{
    if new_side > atlas.side {
        lemma_grown_skyline(atlas.skyline, atlas.side, new_side);
    }
}

/// Growing keeps taken what was taken.
pub proof fn law_grow_keeps_reservations(
    nodes: Seq<Node>,
    size: int,
    new_size: int,
    region: Region,
)
    requires
        skyline_wf(nodes, size),
        2 <= size < new_size <= u32::MAX,
        is_interior(region, size),
        is_taken(nodes, region),
    ensures
        is_interior(region, new_size),
        is_taken(
            nodes.push(Node { x: (size - 1) as u32, y: 1, width: (new_size - size) as u32 }),
            region,
        ),
{
    let out = nodes.push(Node { x: (size - 1) as u32, y: 1, width: (new_size - size) as u32 });
    lemma_grown_skyline(nodes, size, new_size);
    assert forall|px: int| region.x <= px < region.x + region.width implies region.y + region.height
        <= #[trigger] level(out, px) by {
        let j = lemma_column_has_span(nodes, size, px, 0);
        lemma_level_from(nodes, 0, j, px);
        assert(out[j] == nodes[j]);
        lemma_level_from(out, 0, j, px);
        assert(region.y + region.height <= level(nodes, px));
    }
}

/// An empty atlas takes any rectangle that its interior can hold, in the
/// corner.
pub proof fn law_empty_atlas_takes_what_fits(size: int, width: int, height: int)
    requires
        2 <= size <= u32::MAX,
        0 < width <= size - 2,
        0 <= height <= size - 2,
    ensures
        best_place(empty_skyline(size), size, width, height, 1) == Some((0int, 1int)),
{
    let nodes = empty_skyline(size);
    reveal_with_fuel(tallest, 3);
    reveal_with_fuel(best_place, 2);
    assert(tallest(nodes, 0, 1 + width) == 1);
}

/// The byte `b` of the pixel at column `px` and row `py`.
pub open spec fn pixel_byte(
    pixels: Seq<u8>,
    size: int,
    format: Format,
    px: int,
    py: int,
    b: int,
) -> u8 {
    pixels[py * (size * format.bytes()) + px * format.bytes() + b]
}

/// Writing a region puts the source's pixels in it and changes no other pixel.
pub proof fn law_set_writes_the_region(
    before: Seq<u8>,
    size: int,
    format: Format,
    reg: Region,
    data: Seq<u8>,
    px: int,
    py: int,
    b: int,
)
    requires
        2 <= size,
        before.len() == size * (size * format.bytes()),
        reg.writable(size),
        0 <= px < size,
        0 <= py < size,
        0 <= b < format.bytes(),
    ensures
        ({
            let d = format.bytes();
            let after = blit(
                before,
                size * d,
                reg.x * d,
                reg.y as int,
                reg.width * d,
                reg.height as int,
                data,
                0,
                reg.width * d,
            );
            pixel_byte(after, size, format, px, py, b) == if reg.contains(px, py) {
                data[(py - reg.y) * (reg.width * d) + (px - reg.x) * d + b]
            } else {
                pixel_byte(before, size, format, px, py, b)
            }
        }),
{
    let d = format.bytes();
    let k = py * (size * d) + px * d + b;
    lemma_pixel_position(size, d, px, py, b);
    assert((reg.x * d <= px * d + b < reg.x * d + reg.width * d) == (reg.x <= px < reg.x
        + reg.width)) by (nonlinear_arith)
        requires
            0 <= b < d,
            d >= 1,
    ;
    assert((px - reg.x) * d == px * d - reg.x * d) by (nonlinear_arith);
}

pub(crate) proof fn lemma_pixel_position(size: int, d: int, px: int, py: int, b: int)
    requires
        0 <= px < size,
        0 <= py < size,
        0 <= b < d,
    ensures
        0 <= py * (size * d) + px * d + b < size * (size * d),
        (py * (size * d) + px * d + b) / (size * d) == py,
        (py * (size * d) + px * d + b) % (size * d) == px * d + b,
{
    let stride = size * d;
    assert(0 <= px * d && px * d + d <= stride) by (nonlinear_arith)
        requires
            0 <= px,
            px + 1 <= size,
            d > 0,
            stride == size * d,
    ;
    assert(0 <= py * stride && py * stride + stride <= size * stride) by (nonlinear_arith)
        requires
            0 <= py,
            py + 1 <= size,
            stride > 0,
    ;
    vstd::arithmetic::div_mod::lemma_fundamental_div_mod_converse(
        py * stride + px * d + b,
        stride,
        py,
        px * d + b,
    );
}

/// Growing keeps every pixel off the border rows where it was and blanks the
/// rest.
pub proof fn law_grow_keeps_pixels(
    before: Seq<u8>,
    size: int,
    new_size: int,
    format: Format,
    px: int,
    py: int,
    b: int,
)
    requires
        2 <= size < new_size,
        before.len() == size * (size * format.bytes()),
        0 <= px < new_size,
        0 <= py < new_size,
        0 <= b < format.bytes(),
    ensures
        ({
            let d = format.bytes();
            let after = blit(
                Seq::new((new_size * (new_size * d)) as nat, |k: int| 0u8),
                new_size * d,
                0,
                1,
                size * d,
                size - 2,
                before,
                size * d,
                size * d,
            );
            pixel_byte(after, new_size, format, px, py, b) == if px < size && 1 <= py < size - 1 {
                pixel_byte(before, size, format, px, py, b)
            } else {
                0u8
            }
        }),
{
    let d = format.bytes();
    lemma_pixel_position(new_size, d, px, py, b);
    assert((px * d + b < size * d) == (px < size)) by (nonlinear_arith)
        requires
            0 <= b < d,
            d >= 1,
    ;
    assert(px * d >= 0) by (nonlinear_arith)
        requires
            px >= 0,
            d >= 1,
    ;
    assert(size * d + (py - 1) * (size * d) == py * (size * d)) by (nonlinear_arith);
}

/// The number of bytes of a texture.
fn byte_len(size: u32, format: Format) -> (len: usize)
    requires
        AtlasModel::fits(size as int, format),
    ensures
        len == size * (size * format.bytes()),
{
    let depth = format.depth();
    proof {
        let inner = size * depth;
        assert(inner <= size * inner) by (nonlinear_arith)
            requires
                inner >= 0,
                size >= 2,
        ;
    }
    let stride: u32 = size * depth;
    let total: u32 = size * stride;
    total as usize
}

} // verus!
