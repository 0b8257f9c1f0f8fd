//! Memory layout and growth of the shaping arenas.
//!
//! An arena keeps several arrays in one block of virtual memory. What is here
//! decides how large the block is, where each array begins in it and what has
//! to be copied when it grows. Whoever owns the memory carries that out.
use vstd::prelude::*;

verus! {

/// The least multiple of `align` that is not below `v`.
pub open spec fn aligned(v: int, align: int) -> int {
    (v + align - 1) / align * align
}

/// Rounding up goes to a multiple, no lower than the number and less than one
/// step above it, and leaves multiples alone.
pub proof fn law_aligned(v: int, align: int)
    requires
        0 <= v,
        0 < align,
    ensures
        aligned(v, align) % align == 0,
        v <= aligned(v, align) < v + align,
        v % align == 0 ==> aligned(v, align) == v,
{
    let q = (v + align - 1) / align;
    let r = (v + align - 1) % align;
    vstd::arithmetic::div_mod::lemma_fundamental_div_mod(v + align - 1, align);
    vstd::arithmetic::div_mod::lemma_mod_multiples_basic(q, align);
    assert(q * align == align * q) by (nonlinear_arith);
    assert(0 <= r < align);
    if v % align == 0 {
        vstd::arithmetic::div_mod::lemma_fundamental_div_mod(v, align);
        vstd::arithmetic::div_mod::lemma_fundamental_div_mod_converse(
            v + align - 1,
            align,
            v / align,
            align - 1,
        );
        assert((v / align) * align == align * (v / align)) by (nonlinear_arith);
    }
}

/// Rounds up to a multiple of `align`.
pub fn align_up_to(v: usize, align: usize) -> (out: usize)
    requires
        align > 0,
        aligned(v as int, align as int) <= usize::MAX,
    ensures
        out == aligned(v as int, align as int),
{
    let rest: usize = v % align;
    proof {
        let a = align as int;
        law_aligned(v as int, a);
        if rest != 0 {
            vstd::arithmetic::div_mod::lemma_fundamental_div_mod(v as int, a);
            assert((v as int / a + 1) * a == a * (v as int / a) + a) by (nonlinear_arith);
            vstd::arithmetic::div_mod::lemma_fundamental_div_mod_converse(
                v + a - 1,
                a,
                v as int / a + 1,
                rest - 1,
            );
        }
    }
    if rest == 0 {
        v
    } else {
        v + (align - rest)
    }
}

/// The capacity after a request: unchanged if it is enough, else half as much
/// again and sixteen more, or what is asked for if that is more.
pub open spec fn grown_cap(current: usize, required: usize) -> usize {
    if current >= required {
        current
    } else {
        let roomy = saturated(saturated(current + current / 2) + 16);
        if required as int > roomy {
            required
        } else {
            roomy as usize
        }
    }
}

/// The number, or the largest that fits.
pub open spec fn saturated(n: int) -> int {
    if n > usize::MAX {
        usize::MAX as int
    } else {
        n
    }
}

pub fn grow_cap(current: usize, required: usize) -> (cap: usize)
    ensures
        cap == grown_cap(current, required),
{
    if current >= required {
        current
    } else {
        let roomy: usize = current.saturating_add(current / 2).saturating_add(16);
        if required > roomy {
            required
        } else {
            roomy
        }
    }
}

/// A capacity never shrinks and always covers the request.
pub proof fn law_grown_cap(current: usize, required: usize)
    ensures
        grown_cap(current, required) >= current,
        grown_cap(current, required) >= required,
        current >= required ==> grown_cap(current, required) == current,
{
}

/// Size and alignment of an element.
#[derive(Clone, Copy, Debug, PartialEq, Eq, Structural)]
pub struct ElementLayout {
    pub size: usize,
    pub align: usize,
}

/// Where an array of `count` elements begins if the bytes up to `at` are
/// taken.
pub open spec fn begin_of(at: int, element: ElementLayout) -> int {
    aligned(at, element.align as int)
}

/// Where it ends.
pub open spec fn end_of(at: int, element: ElementLayout, count: int) -> int {
    begin_of(at, element) + count * element.size
}

fn place(at: usize, element: ElementLayout, count: usize) -> (placed: (usize, usize))
    requires
        element.align > 0,
        end_of(at as int, element, count as int) <= usize::MAX,
    ensures
        placed.0 == begin_of(at as int, element),
        placed.1 == end_of(at as int, element, count as int),
{
    proof {
        assert(count * element.size >= 0) by (nonlinear_arith)
            requires
                count >= 0,
                element.size >= 0,
        ;
    }
    let begin: usize = align_up_to(at, element.align);
    proof {
        law_aligned(at as int, element.align as int);
    }
    let end: usize = begin + count * element.size;
    (begin, end)
}

proof fn lemma_place(at: int, element: ElementLayout, count: int)
    requires
        0 <= at,
        0 <= count,
        element.align > 0,
    ensures
        at <= begin_of(at, element) <= end_of(at, element, count),
        begin_of(at, element) % element.align as int == 0,
{
    law_aligned(at, element.align as int);
    assert(count * element.size >= 0) by (nonlinear_arith)
        requires
            count >= 0,
            element.size >= 0,
    ;
}

/// Capacities of the output arena, in elements.
#[derive(Clone, Copy, Debug, PartialEq, Eq, Structural)]
pub struct OutputCaps {
    pub runs: usize,
    pub spans: usize,
    pub cells: usize,
    pub cluster: usize,
    pub glyph: usize,
}

/// How much of the output arena is in use, in elements.
#[derive(Clone, Copy, Debug, PartialEq, Eq, Structural)]
pub struct OutputUsed {
    pub runs: usize,
    pub spans: usize,
    pub cells: usize,
    pub cluster: usize,
    pub glyph: usize,
}

/// The elements of the output arena.
#[derive(Clone, Copy, Debug, PartialEq, Eq, Structural)]
pub struct OutputElements {
    pub run: ElementLayout,
    pub span: ElementLayout,
    pub cell: ElementLayout,
    pub cluster: ElementLayout,
    pub advance: ElementLayout,
    pub offset: ElementLayout,
}

impl OutputElements {
    pub open spec fn wf(self) -> bool {
        &&& self.run.align > 0
        &&& self.span.align > 0
        &&& self.cell.align > 0
        &&& self.cluster.align > 0
        &&& self.advance.align > 0
        &&& self.offset.align > 0
    }
}

/// Where the arrays of the output arena begin, in bytes.
#[derive(Clone, Copy, Debug, PartialEq, Eq, Structural)]
pub struct OutputLayout {
    pub runs: usize,
    pub run_cell_spans: usize,
    pub run_glyph_spans: usize,
    pub run_cluster_spans: usize,
    pub cells: usize,
    pub cluster_map: usize,
    pub glyph_advances: usize,
    pub glyph_offsets: usize,
    pub total: usize,
}

/// The end of array `n` of the output arena, counted from the first, 1.
pub open spec fn output_end(e: OutputElements, c: OutputCaps, n: int) -> int {
    if n <= 0 {
        0
    } else {
        let ends_1 = end_of(0, e.run, c.runs as int);
        let ends_2 = end_of(ends_1, e.span, c.spans as int);
        let ends_3 = end_of(ends_2, e.span, c.spans as int);
        let ends_4 = end_of(ends_3, e.span, c.spans as int);
        let ends_5 = end_of(ends_4, e.cell, c.cells as int);
        let ends_6 = end_of(ends_5, e.cluster, c.cluster as int);
        let ends_7 = end_of(ends_6, e.advance, c.glyph as int);
        let ends_8 = end_of(ends_7, e.offset, c.glyph as int);
        if n == 1 {
            ends_1
        } else if n == 2 {
            ends_2
        } else if n == 3 {
            ends_3
        } else if n == 4 {
            ends_4
        } else if n == 5 {
            ends_5
        } else if n == 6 {
            ends_6
        } else if n == 7 {
            ends_7
        } else {
            ends_8
        }
    }
}

/// The bytes that the output arena takes.
pub open spec fn output_total(e: OutputElements, c: OutputCaps) -> int {
    aligned(output_end(e, c, 8), 8)
}

/// The arrays one after the other, each at its alignment.
pub open spec fn output_offsets(e: OutputElements, c: OutputCaps) -> OutputLayout {
    OutputLayout {
        runs: begin_of(0, e.run) as usize,
        run_cell_spans: begin_of(output_end(e, c, 1), e.span) as usize,
        run_glyph_spans: begin_of(output_end(e, c, 2), e.span) as usize,
        run_cluster_spans: begin_of(output_end(e, c, 3), e.span) as usize,
        cells: begin_of(output_end(e, c, 4), e.cell) as usize,
        cluster_map: begin_of(output_end(e, c, 5), e.cluster) as usize,
        glyph_advances: begin_of(output_end(e, c, 6), e.advance) as usize,
        glyph_offsets: begin_of(output_end(e, c, 7), e.offset) as usize,
        total: output_total(e, c) as usize,
    }
}

proof fn lemma_output_ends(e: OutputElements, c: OutputCaps)
    requires
        e.wf(),
    ensures
        0 <= begin_of(0, e.run) <= output_end(e, c, 1) <= begin_of(output_end(e, c, 1), e.span)
            <= output_end(e, c, 2) <= begin_of(output_end(e, c, 2), e.span) <= output_end(e, c, 3)
            <= begin_of(output_end(e, c, 3), e.span) <= output_end(e, c, 4) <= begin_of(
            output_end(e, c, 4),
            e.cell,
        ) <= output_end(e, c, 5) <= begin_of(output_end(e, c, 5), e.cluster) <= output_end(e, c, 6)
            <= begin_of(output_end(e, c, 6), e.advance) <= output_end(e, c, 7) <= begin_of(
            output_end(e, c, 7),
            e.offset,
        ) <= output_end(e, c, 8) <= output_total(e, c),
        begin_of(0, e.run) % e.run.align as int == 0,
        begin_of(output_end(e, c, 1), e.span) % e.span.align as int == 0,
        begin_of(output_end(e, c, 2), e.span) % e.span.align as int == 0,
        begin_of(output_end(e, c, 3), e.span) % e.span.align as int == 0,
        begin_of(output_end(e, c, 4), e.cell) % e.cell.align as int == 0,
        begin_of(output_end(e, c, 5), e.cluster) % e.cluster.align as int == 0,
        begin_of(output_end(e, c, 6), e.advance) % e.advance.align as int == 0,
        begin_of(output_end(e, c, 7), e.offset) % e.offset.align as int == 0,
{
    lemma_place(0, e.run, c.runs as int);
    lemma_place(output_end(e, c, 1), e.span, c.spans as int);
    lemma_place(output_end(e, c, 2), e.span, c.spans as int);
    lemma_place(output_end(e, c, 3), e.span, c.spans as int);
    lemma_place(output_end(e, c, 4), e.cell, c.cells as int);
    lemma_place(output_end(e, c, 5), e.cluster, c.cluster as int);
    lemma_place(output_end(e, c, 6), e.advance, c.glyph as int);
    lemma_place(output_end(e, c, 7), e.offset, c.glyph as int);
    law_aligned(output_end(e, c, 8), 8);
}

/// The layout of the output arena.
pub fn output_layout(e: OutputElements, c: OutputCaps) -> (layout: OutputLayout)
    requires
        e.wf(),
        output_total(e, c) <= usize::MAX,
    ensures
        layout == output_offsets(e, c),
{
    proof {
        lemma_output_ends(e, c);
    }
    let (runs, at1) = place(0, e.run, c.runs);
    let (run_cell_spans, at2) = place(at1, e.span, c.spans);
    let (run_glyph_spans, at3) = place(at2, e.span, c.spans);
    let (run_cluster_spans, at4) = place(at3, e.span, c.spans);
    let (cells, at5) = place(at4, e.cell, c.cells);
    let (cluster_map, at6) = place(at5, e.cluster, c.cluster);
    let (glyph_advances, at7) = place(at6, e.advance, c.glyph);
    let (glyph_offsets, at8) = place(at7, e.offset, c.glyph);
    OutputLayout {
        runs,
        run_cell_spans,
        run_glyph_spans,
        run_cluster_spans,
        cells,
        cluster_map,
        glyph_advances,
        glyph_offsets,
        total: align_up_to(at8, 8),
    }
}

/// The arrays of the output arena stand in order without overlapping, each at
/// its alignment, and all within the block.
pub proof fn law_output_arrays_are_apart(e: OutputElements, c: OutputCaps)
    requires
        e.wf(),
        output_total(e, c) <= usize::MAX,
    ensures
        ({
            let l = output_offsets(e, c);
            &&& l.runs + c.runs * e.run.size <= l.run_cell_spans
            &&& l.run_cell_spans + c.spans * e.span.size <= l.run_glyph_spans
            &&& l.run_glyph_spans + c.spans * e.span.size <= l.run_cluster_spans
            &&& l.run_cluster_spans + c.spans * e.span.size <= l.cells
            &&& l.cells + c.cells * e.cell.size <= l.cluster_map
            &&& l.cluster_map + c.cluster * e.cluster.size <= l.glyph_advances
            &&& l.glyph_advances + c.glyph * e.advance.size <= l.glyph_offsets
            &&& l.glyph_offsets + c.glyph * e.offset.size <= l.total
            &&& l.runs % e.run.align == 0
            &&& l.run_cell_spans % e.span.align == 0
            &&& l.run_glyph_spans % e.span.align == 0
            &&& l.run_cluster_spans % e.span.align == 0
            &&& l.cells % e.cell.align == 0
            &&& l.cluster_map % e.cluster.align == 0
            &&& l.glyph_advances % e.advance.align == 0
            &&& l.glyph_offsets % e.offset.align == 0
        }),
{
    lemma_output_ends(e, c);
}

/// What happens to the memory of an arena that is reset.
#[derive(Clone, Copy, Debug, PartialEq, Eq, Structural)]
pub enum ArenaResetMode {
    /// Memory and capacities stay.
    RetainCommitted,
    /// The memory is given back but its addresses are kept.
    Decommit,
    /// Everything is given back.
    Release,
}

/// Bytes to copy from an arena's old block to its new one.
#[derive(Clone, Copy, Debug, PartialEq, Eq, Structural)]
pub struct CopyRange {
    pub from: usize,
    pub to: usize,
    pub len: usize,
}

/// How an output arena has to grow.
#[derive(Debug)]
pub struct OutputGrowth {
    pub caps: OutputCaps,
    pub layout: OutputLayout,
    /// What to copy into the new block, which takes `layout.total` bytes.
    pub copies: Vec<CopyRange>,
}

/// The persistent arena of shaped output.
pub struct OutputArena {
    elements: OutputElements,
    caps: OutputCaps,
    layout: OutputLayout,
    held: bool,
}

/// The capacities after a request.
pub open spec fn grown_output_caps(caps: OutputCaps, required: OutputCaps) -> OutputCaps {
    OutputCaps {
        runs: grown_cap(caps.runs, required.runs),
        spans: grown_cap(caps.spans, required.spans),
        cells: grown_cap(caps.cells, required.cells),
        cluster: grown_cap(caps.cluster, required.cluster),
        glyph: grown_cap(caps.glyph, required.glyph),
    }
}

/// No capacity.
pub open spec fn no_output_caps() -> OutputCaps {
    OutputCaps { runs: 0, spans: 0, cells: 0, cluster: 0, glyph: 0 }
}

/// A layout without arrays.
pub open spec fn no_output_layout() -> OutputLayout {
    OutputLayout {
        runs: 0,
        run_cell_spans: 0,
        run_glyph_spans: 0,
        run_cluster_spans: 0,
        cells: 0,
        cluster_map: 0,
        glyph_advances: 0,
        glyph_offsets: 0,
        total: 0,
    }
}

/// What is in use lies within the capacities.
pub open spec fn used_within(used: OutputUsed, caps: OutputCaps) -> bool {
    &&& used.runs <= caps.runs
    &&& used.spans <= caps.spans
    &&& used.cells <= caps.cells
    &&& used.cluster <= caps.cluster
    &&& used.glyph <= caps.glyph
}

/// The used part of every array, from its old place to its new one.
pub open spec fn output_copies(
    e: OutputElements,
    old_layout: OutputLayout,
    new_layout: OutputLayout,
    used: OutputUsed,
) -> Seq<CopyRange> {
    seq![
        CopyRange {
            from: old_layout.runs,
            to: new_layout.runs,
            len: (used.runs * e.run.size) as usize,
        },
        CopyRange {
            from: old_layout.run_cell_spans,
            to: new_layout.run_cell_spans,
            len: (used.spans * e.span.size) as usize,
        },
        CopyRange {
            from: old_layout.run_glyph_spans,
            to: new_layout.run_glyph_spans,
            len: (used.spans * e.span.size) as usize,
        },
        CopyRange {
            from: old_layout.run_cluster_spans,
            to: new_layout.run_cluster_spans,
            len: (used.spans * e.span.size) as usize,
        },
        CopyRange {
            from: old_layout.cells,
            to: new_layout.cells,
            len: (used.cells * e.cell.size) as usize,
        },
        CopyRange {
            from: old_layout.cluster_map,
            to: new_layout.cluster_map,
            len: (used.cluster * e.cluster.size) as usize,
        },
        CopyRange {
            from: old_layout.glyph_advances,
            to: new_layout.glyph_advances,
            len: (used.glyph * e.advance.size) as usize,
        },
        CopyRange {
            from: old_layout.glyph_offsets,
            to: new_layout.glyph_offsets,
            len: (used.glyph * e.offset.size) as usize,
        },
    ]
}

impl OutputArena {
    /// The elements that the arena holds.
    pub closed spec fn kinds(&self) -> OutputElements {
        self.elements
    }

    /// The capacities.
    pub closed spec fn capacities(&self) -> OutputCaps {
        self.caps
    }

    /// Where the arrays are.
    pub closed spec fn offsets(&self) -> OutputLayout {
        self.layout
    }

    /// Whether there is a block.
    pub closed spec fn has_block(&self) -> bool {
        self.held
    }

    /// The layout is that of the capacities, which fit the address space.
    pub open spec fn wf(&self) -> bool {
        &&& self.kinds().wf()
        &&& output_total(self.kinds(), self.capacities()) <= usize::MAX
        &&& self.has_block() ==> self.offsets() == output_offsets(self.kinds(), self.capacities())
    }

    /// An arena without memory.
    pub fn new(elements: OutputElements) -> (arena: OutputArena)
        requires
            elements.wf(),
        ensures
            arena.wf(),
            arena.kinds() == elements,
            arena.capacities() == no_output_caps(),
            arena.offsets() == no_output_layout(),
            !arena.has_block(),
    {
        proof {
            lemma_no_output(elements);
        }
        OutputArena {
            elements,
            caps: OutputCaps { runs: 0, spans: 0, cells: 0, cluster: 0, glyph: 0 },
            layout: OutputLayout {
                runs: 0,
                run_cell_spans: 0,
                run_glyph_spans: 0,
                run_cluster_spans: 0,
                cells: 0,
                cluster_map: 0,
                glyph_advances: 0,
                glyph_offsets: 0,
                total: 0,
            },
            held: false,
        }
    }

    /// How the arena has to grow for a request, or nothing if its capacities
    /// are enough. What is in use is to be copied over.
    pub fn ensure(&self, required: OutputCaps, used: OutputUsed) -> (growth: Option<OutputGrowth>)
        requires
            self.wf(),
            used_within(used, self.capacities()),
            output_total(self.kinds(), grown_output_caps(self.capacities(), required))
                <= usize::MAX,
        ensures
            ({
                let next = grown_output_caps(self.capacities(), required);
                if next == self.capacities() {
                    growth is None
                } else {
                    growth matches Some(growth) && ({
                        &&& growth.caps == next
                        &&& growth.layout == output_offsets(self.kinds(), next)
                        &&& growth.copies@ == if self.has_block() {
                            output_copies(self.kinds(), self.offsets(), growth.layout, used)
                        } else {
                            Seq::empty()
                        }
                    })
                }
            }),
    {
        let e = self.elements;
        let next = OutputCaps {
            runs: grow_cap(self.caps.runs, required.runs),
            spans: grow_cap(self.caps.spans, required.spans),
            cells: grow_cap(self.caps.cells, required.cells),
            cluster: grow_cap(self.caps.cluster, required.cluster),
            glyph: grow_cap(self.caps.glyph, required.glyph),
        };
        if next == self.caps {
            return None;
        }
        let layout = output_layout(e, next);
        let mut copies: Vec<CopyRange> = Vec::new();
        if self.held {
            let from = self.layout;
            proof {
                law_output_arrays_are_apart(e, self.caps);
                lemma_within(used.runs as int, self.caps.runs as int, e.run.size as int);
                lemma_within(used.spans as int, self.caps.spans as int, e.span.size as int);
                lemma_within(used.cells as int, self.caps.cells as int, e.cell.size as int);
                lemma_within(used.cluster as int, self.caps.cluster as int, e.cluster.size as int);
                lemma_within(used.glyph as int, self.caps.glyph as int, e.advance.size as int);
                lemma_within(used.glyph as int, self.caps.glyph as int, e.offset.size as int);
            }
            copies.push(
                CopyRange { from: from.runs, to: layout.runs, len: used.runs * e.run.size },
            );
            copies.push(
                CopyRange {
                    from: from.run_cell_spans,
                    to: layout.run_cell_spans,
                    len: used.spans * e.span.size,
                },
            );
            copies.push(
                CopyRange {
                    from: from.run_glyph_spans,
                    to: layout.run_glyph_spans,
                    len: used.spans * e.span.size,
                },
            );
            copies.push(
                CopyRange {
                    from: from.run_cluster_spans,
                    to: layout.run_cluster_spans,
                    len: used.spans * e.span.size,
                },
            );
            copies.push(
                CopyRange { from: from.cells, to: layout.cells, len: used.cells * e.cell.size },
            );
            copies.push(
                CopyRange {
                    from: from.cluster_map,
                    to: layout.cluster_map,
                    len: used.cluster * e.cluster.size,
                },
            );
            copies.push(
                CopyRange {
                    from: from.glyph_advances,
                    to: layout.glyph_advances,
                    len: used.glyph * e.advance.size,
                },
            );
            copies.push(
                CopyRange {
                    from: from.glyph_offsets,
                    to: layout.glyph_offsets,
                    len: used.glyph * e.offset.size,
                },
            );
            assert(copies@ =~= output_copies(e, self.layout, layout, used));
        }
        Some(OutputGrowth { caps: next, layout, copies })
    }

    /// Takes over a block of the new size, once what was in use was copied.
    pub fn grown(&mut self, growth: &OutputGrowth)
        requires
            old(self).wf(),
            output_total(old(self).kinds(), growth.caps) <= usize::MAX,
            growth.layout == output_offsets(old(self).kinds(), growth.caps),
        ensures
            final(self).wf(),
            final(self).kinds() == old(self).kinds(),
            final(self).capacities() == growth.caps,
            final(self).offsets() == growth.layout,
            final(self).has_block() == (growth.layout.total > 0),
    {
        self.caps = growth.caps;
        self.layout = growth.layout;
        self.held = growth.layout.total > 0;
    }

    /// Forgets capacities and layout, unless the memory stays.
    pub fn reset(&mut self, mode: ArenaResetMode)
        requires
            old(self).wf(),
        ensures
            final(self).wf(),
            final(self).kinds() == old(self).kinds(),
            mode is RetainCommitted ==> *final(self) == *old(self),
            !(mode is RetainCommitted) ==> {
                &&& final(self).capacities() == no_output_caps()
                &&& final(self).offsets() == no_output_layout()
                &&& final(self).has_block() == (old(self).has_block() && mode is Decommit)
            },
    {
        proof {
            lemma_no_output(self.elements);
        }
        if mode != ArenaResetMode::RetainCommitted {
            let empty = OutputArena::new(self.elements);
            self.caps = empty.caps;
            self.layout = empty.layout;
            if mode == ArenaResetMode::Release {
                self.held = false;
            }
        }
    }

    /// Where the arrays are.
    pub fn layout(&self) -> (layout: OutputLayout)
        ensures
            layout == self.offsets(),
    {
        self.layout
    }
}

proof fn lemma_no_output(e: OutputElements)
    requires
        e.wf(),
    ensures
        output_total(e, no_output_caps()) == 0,
        output_offsets(e, no_output_caps()) == no_output_layout(),
{
    lemma_nothing(e.run);
    lemma_nothing(e.span);
    lemma_nothing(e.cell);
    lemma_nothing(e.cluster);
    lemma_nothing(e.advance);
    lemma_nothing(e.offset);
    law_aligned(0, 8);
}

proof fn lemma_nothing(e: ElementLayout)
    requires
        e.align > 0,
    ensures
        begin_of(0, e) == 0,
        end_of(0, e, 0) == 0,
{
    law_aligned(0, e.align as int);
    vstd::arithmetic::div_mod::lemma_small_mod(0, e.align as nat);
    assert(0 * e.size == 0) by (nonlinear_arith);
}

/// Growing an output arena copies what is in use within the old block and the
/// new one, and no two copies meet.
pub proof fn law_growth_copies_fit(
    e: OutputElements,
    caps: OutputCaps,
    required: OutputCaps,
    used: OutputUsed,
)
    requires
        e.wf(),
        used_within(used, caps),
        output_total(e, caps) <= usize::MAX,
        output_total(e, grown_output_caps(caps, required)) <= usize::MAX,
    ensures
        ({
            let before = output_offsets(e, caps);
            let after = output_offsets(e, grown_output_caps(caps, required));
            let copies = output_copies(e, before, after, used);
            &&& forall|i: int|
                0 <= i < copies.len() ==> (#[trigger] copies[i]).from + copies[i].len
                    <= before.total && copies[i].to + copies[i].len <= after.total
            &&& forall|i: int, j: int|
                #![trigger copies[i], copies[j]]
                0 <= i < j < copies.len() ==> copies[i].from + copies[i].len <= copies[j].from
                    && copies[i].to + copies[i].len <= copies[j].to
        }),
{
    let next = grown_output_caps(caps, required);
    let before = output_offsets(e, caps);
    let after = output_offsets(e, next);
    let copies = output_copies(e, before, after, used);
    law_output_arrays_are_apart(e, caps);
    law_output_arrays_are_apart(e, next);
    lemma_within(used.runs as int, caps.runs as int, e.run.size as int);
    lemma_within(used.spans as int, caps.spans as int, e.span.size as int);
    lemma_within(used.cells as int, caps.cells as int, e.cell.size as int);
    lemma_within(used.cluster as int, caps.cluster as int, e.cluster.size as int);
    lemma_within(used.glyph as int, caps.glyph as int, e.advance.size as int);
    lemma_within(used.glyph as int, caps.glyph as int, e.offset.size as int);
    lemma_within(used.runs as int, next.runs as int, e.run.size as int);
    lemma_within(used.spans as int, next.spans as int, e.span.size as int);
    lemma_within(used.cells as int, next.cells as int, e.cell.size as int);
    lemma_within(used.cluster as int, next.cluster as int, e.cluster.size as int);
    lemma_within(used.glyph as int, next.glyph as int, e.advance.size as int);
    lemma_within(used.glyph as int, next.glyph as int, e.offset.size as int);
    assert(copies.len() == 8);
}

proof fn lemma_within(used: int, cap: int, size: int)
    by (nonlinear_arith)
    requires
        0 <= used <= cap,
        0 <= size,
    ensures
        0 <= used * size <= cap * size,
{
}

/// Capacities of the scratch arena, in elements.
#[derive(Clone, Copy, Debug, PartialEq, Eq, Structural)]
pub struct ScratchCaps {
    pub script_runs: usize,
    pub bidi_runs: usize,
    pub text: usize,
    pub glyph: usize,
}

/// The elements of the scratch arena.
#[derive(Clone, Copy, Debug, PartialEq, Eq, Structural)]
pub struct ScratchElements {
    pub script_run: ElementLayout,
    pub bidi_run: ElementLayout,
    pub cluster: ElementLayout,
    pub text_prop: ElementLayout,
    pub glyph_index: ElementLayout,
    pub glyph_prop: ElementLayout,
    pub advance: ElementLayout,
    pub offset: ElementLayout,
}

impl ScratchElements {
    pub open spec fn wf(self) -> bool {
        &&& self.script_run.align > 0
        &&& self.bidi_run.align > 0
        &&& self.cluster.align > 0
        &&& self.text_prop.align > 0
        &&& self.glyph_index.align > 0
        &&& self.glyph_prop.align > 0
        &&& self.advance.align > 0
        &&& self.offset.align > 0
    }
}

/// Where the arrays of the scratch arena begin, in bytes.
#[derive(Clone, Copy, Debug, PartialEq, Eq, Structural)]
pub struct ScratchLayout {
    pub script_runs: usize,
    pub bidi_runs: usize,
    pub cluster_map: usize,
    pub text_props: usize,
    pub glyph_indices: usize,
    pub glyph_props: usize,
    pub glyph_advances: usize,
    pub glyph_offsets: usize,
    pub total: usize,
}

/// The end of array `n` of the scratch arena, counted from the first, 1. The
/// cluster map has one entry more than there is text.
pub open spec fn scratch_end(e: ScratchElements, c: ScratchCaps, n: int) -> int {
    if n <= 0 {
        0
    } else {
        let ends_1 = end_of(0, e.script_run, c.script_runs as int);
        let ends_2 = end_of(ends_1, e.bidi_run, c.bidi_runs as int);
        let ends_3 = end_of(ends_2, e.cluster, c.text + 1);
        let ends_4 = end_of(ends_3, e.text_prop, c.text as int);
        let ends_5 = end_of(ends_4, e.glyph_index, c.glyph as int);
        let ends_6 = end_of(ends_5, e.glyph_prop, c.glyph as int);
        let ends_7 = end_of(ends_6, e.advance, c.glyph as int);
        let ends_8 = end_of(ends_7, e.offset, c.glyph as int);
        if n == 1 {
            ends_1
        } else if n == 2 {
            ends_2
        } else if n == 3 {
            ends_3
        } else if n == 4 {
            ends_4
        } else if n == 5 {
            ends_5
        } else if n == 6 {
            ends_6
        } else if n == 7 {
            ends_7
        } else {
            ends_8
        }
    }
}

/// The bytes that the scratch arena takes.
pub open spec fn scratch_total(e: ScratchElements, c: ScratchCaps) -> int {
    aligned(scratch_end(e, c, 8), 8)
}

/// The arrays one after the other, each at its alignment.
pub open spec fn scratch_offsets(e: ScratchElements, c: ScratchCaps) -> ScratchLayout {
    ScratchLayout {
        script_runs: begin_of(0, e.script_run) as usize,
        bidi_runs: begin_of(scratch_end(e, c, 1), e.bidi_run) as usize,
        cluster_map: begin_of(scratch_end(e, c, 2), e.cluster) as usize,
        text_props: begin_of(scratch_end(e, c, 3), e.text_prop) as usize,
        glyph_indices: begin_of(scratch_end(e, c, 4), e.glyph_index) as usize,
        glyph_props: begin_of(scratch_end(e, c, 5), e.glyph_prop) as usize,
        glyph_advances: begin_of(scratch_end(e, c, 6), e.advance) as usize,
        glyph_offsets: begin_of(scratch_end(e, c, 7), e.offset) as usize,
        total: scratch_total(e, c) as usize,
    }
}

proof fn lemma_scratch_ends(e: ScratchElements, c: ScratchCaps)
    requires
        e.wf(),
    ensures
        0 <= begin_of(0, e.script_run) <= scratch_end(e, c, 1) <= begin_of(
            scratch_end(e, c, 1),
            e.bidi_run,
        ) <= scratch_end(e, c, 2) <= begin_of(scratch_end(e, c, 2), e.cluster) <= scratch_end(
            e,
            c,
            3,
        ) <= begin_of(scratch_end(e, c, 3), e.text_prop) <= scratch_end(e, c, 4) <= begin_of(
            scratch_end(e, c, 4),
            e.glyph_index,
        ) <= scratch_end(e, c, 5) <= begin_of(scratch_end(e, c, 5), e.glyph_prop) <= scratch_end(
            e,
            c,
            6,
        ) <= begin_of(scratch_end(e, c, 6), e.advance) <= scratch_end(e, c, 7) <= begin_of(
            scratch_end(e, c, 7),
            e.offset,
        ) <= scratch_end(e, c, 8) <= scratch_total(e, c),
        begin_of(0, e.script_run) % e.script_run.align as int == 0,
        begin_of(scratch_end(e, c, 1), e.bidi_run) % e.bidi_run.align as int == 0,
        begin_of(scratch_end(e, c, 2), e.cluster) % e.cluster.align as int == 0,
        begin_of(scratch_end(e, c, 3), e.text_prop) % e.text_prop.align as int == 0,
        begin_of(scratch_end(e, c, 4), e.glyph_index) % e.glyph_index.align as int == 0,
        begin_of(scratch_end(e, c, 5), e.glyph_prop) % e.glyph_prop.align as int == 0,
        begin_of(scratch_end(e, c, 6), e.advance) % e.advance.align as int == 0,
        begin_of(scratch_end(e, c, 7), e.offset) % e.offset.align as int == 0,
{
    lemma_place(0, e.script_run, c.script_runs as int);
    lemma_place(scratch_end(e, c, 1), e.bidi_run, c.bidi_runs as int);
    lemma_place(scratch_end(e, c, 2), e.cluster, c.text + 1);
    lemma_place(scratch_end(e, c, 3), e.text_prop, c.text as int);
    lemma_place(scratch_end(e, c, 4), e.glyph_index, c.glyph as int);
    lemma_place(scratch_end(e, c, 5), e.glyph_prop, c.glyph as int);
    lemma_place(scratch_end(e, c, 6), e.advance, c.glyph as int);
    lemma_place(scratch_end(e, c, 7), e.offset, c.glyph as int);
    law_aligned(scratch_end(e, c, 8), 8);
}

/// The layout of the scratch arena.
pub fn scratch_layout(e: ScratchElements, c: ScratchCaps) -> (layout: ScratchLayout)
    requires
        e.wf(),
        c.text < usize::MAX,
        scratch_total(e, c) <= usize::MAX,
    ensures
        layout == scratch_offsets(e, c),
{
    proof {
        lemma_scratch_ends(e, c);
    }
    let (script_runs, at1) = place(0, e.script_run, c.script_runs);
    let (bidi_runs, at2) = place(at1, e.bidi_run, c.bidi_runs);
    let (cluster_map, at3) = place(at2, e.cluster, c.text + 1);
    let (text_props, at4) = place(at3, e.text_prop, c.text);
    let (glyph_indices, at5) = place(at4, e.glyph_index, c.glyph);
    let (glyph_props, at6) = place(at5, e.glyph_prop, c.glyph);
    let (glyph_advances, at7) = place(at6, e.advance, c.glyph);
    let (glyph_offsets, at8) = place(at7, e.offset, c.glyph);
    ScratchLayout {
        script_runs,
        bidi_runs,
        cluster_map,
        text_props,
        glyph_indices,
        glyph_props,
        glyph_advances,
        glyph_offsets,
        total: align_up_to(at8, 8),
    }
}

/// The arrays of the scratch arena stand in order without overlapping, each at
/// its alignment, and all within the block.
pub proof fn law_scratch_arrays_are_apart(e: ScratchElements, c: ScratchCaps)
    requires
        e.wf(),
        scratch_total(e, c) <= usize::MAX,
    ensures
        ({
            let l = scratch_offsets(e, c);
            &&& l.script_runs + c.script_runs * e.script_run.size <= l.bidi_runs
            &&& l.bidi_runs + c.bidi_runs * e.bidi_run.size <= l.cluster_map
            &&& l.cluster_map + (c.text + 1) * e.cluster.size <= l.text_props
            &&& l.text_props + c.text * e.text_prop.size <= l.glyph_indices
            &&& l.glyph_indices + c.glyph * e.glyph_index.size <= l.glyph_props
            &&& l.glyph_props + c.glyph * e.glyph_prop.size <= l.glyph_advances
            &&& l.glyph_advances + c.glyph * e.advance.size <= l.glyph_offsets
            &&& l.glyph_offsets + c.glyph * e.offset.size <= l.total
            &&& l.script_runs % e.script_run.align == 0
            &&& l.bidi_runs % e.bidi_run.align == 0
            &&& l.cluster_map % e.cluster.align == 0
            &&& l.text_props % e.text_prop.align == 0
            &&& l.glyph_indices % e.glyph_index.align == 0
            &&& l.glyph_props % e.glyph_prop.align == 0
            &&& l.glyph_advances % e.advance.align == 0
            &&& l.glyph_offsets % e.offset.align == 0
        }),
{
    lemma_scratch_ends(e, c);
}

/// The capacities after a request.
pub open spec fn grown_scratch_caps(caps: ScratchCaps, required: ScratchCaps) -> ScratchCaps {
    ScratchCaps {
        script_runs: grown_cap(caps.script_runs, required.script_runs),
        bidi_runs: grown_cap(caps.bidi_runs, required.bidi_runs),
        text: grown_cap(caps.text, required.text),
        glyph: grown_cap(caps.glyph, required.glyph),
    }
}

/// No capacity.
pub open spec fn no_scratch_caps() -> ScratchCaps {
    ScratchCaps { script_runs: 0, bidi_runs: 0, text: 0, glyph: 0 }
}

/// A layout without arrays.
pub open spec fn no_scratch_layout() -> ScratchLayout {
    ScratchLayout {
        script_runs: 0,
        bidi_runs: 0,
        cluster_map: 0,
        text_props: 0,
        glyph_indices: 0,
        glyph_props: 0,
        glyph_advances: 0,
        glyph_offsets: 0,
        total: 0,
    }
}

/// The arena of what shaping needs for a while. Its contents are lost when it
/// grows.
pub struct ScratchArena {
    elements: ScratchElements,
    caps: ScratchCaps,
    layout: ScratchLayout,
}

impl ScratchArena {
    /// The elements that the arena holds.
    pub closed spec fn kinds(&self) -> ScratchElements {
        self.elements
    }

    /// The capacities.
    pub closed spec fn capacities(&self) -> ScratchCaps {
        self.caps
    }

    /// Where the arrays are.
    pub closed spec fn offsets(&self) -> ScratchLayout {
        self.layout
    }

    /// An arena without memory.
    pub fn new(elements: ScratchElements) -> (arena: ScratchArena)
        ensures
            arena.kinds() == elements,
            arena.capacities() == no_scratch_caps(),
            arena.offsets() == no_scratch_layout(),
    {
        ScratchArena {
            elements,
            caps: ScratchCaps { script_runs: 0, bidi_runs: 0, text: 0, glyph: 0 },
            layout: ScratchLayout {
                script_runs: 0,
                bidi_runs: 0,
                cluster_map: 0,
                text_props: 0,
                glyph_indices: 0,
                glyph_props: 0,
                glyph_advances: 0,
                glyph_offsets: 0,
                total: 0,
            },
        }
    }

    /// Lays the arena out for a request. The result is what its capacities
    /// will be once its block has `layout().total` bytes; nothing, if they are
    /// enough.
    pub fn ensure(&mut self, required: ScratchCaps) -> (growth: Option<ScratchCaps>)
        requires
            old(self).kinds().wf(),
            grown_scratch_caps(old(self).capacities(), required).text < usize::MAX,
            scratch_total(
                old(self).kinds(),
                grown_scratch_caps(old(self).capacities(), required),
            ) <= usize::MAX,
        ensures
            final(self).kinds() == old(self).kinds(),
            final(self).capacities() == old(self).capacities(),
            ({
                let next = grown_scratch_caps(old(self).capacities(), required);
                if next == old(self).capacities() {
                    growth is None && final(self).offsets() == old(self).offsets()
                } else {
                    growth == Some(next) && final(self).offsets() == scratch_offsets(
                        old(self).kinds(),
                        next,
                    )
                }
            }),
    {
        let next = ScratchCaps {
            script_runs: grow_cap(self.caps.script_runs, required.script_runs),
            bidi_runs: grow_cap(self.caps.bidi_runs, required.bidi_runs),
            text: grow_cap(self.caps.text, required.text),
            glyph: grow_cap(self.caps.glyph, required.glyph),
        };
        if next == self.caps {
            return None;
        }
        self.layout = scratch_layout(self.elements, next);
        Some(next)
    }

    /// The block has grown.
    pub fn grown(&mut self, caps: ScratchCaps)
        ensures
            final(self).kinds() == old(self).kinds(),
            final(self).offsets() == old(self).offsets(),
            final(self).capacities() == caps,
    {
        self.caps = caps;
    }

    /// Forgets capacities and layout, unless the memory stays.
    pub fn reset(&mut self, mode: ArenaResetMode)
        ensures
            final(self).kinds() == old(self).kinds(),
            mode is RetainCommitted ==> *final(self) == *old(self),
            !(mode is RetainCommitted) ==> final(self).capacities() == no_scratch_caps() && final(self).offsets()
                == no_scratch_layout(),
    {
        if mode != ArenaResetMode::RetainCommitted {
            *self = ScratchArena::new(self.elements);
        }
    }

    /// Where the arrays are.
    pub fn layout(&self) -> (layout: ScratchLayout)
        ensures
            layout == self.offsets(),
    {
        self.layout
    }

    pub fn glyph_cap(&self) -> (cap: usize)
        ensures
            cap == self.capacities().glyph,
    {
        self.caps.glyph
    }

    pub fn script_runs_cap(&self) -> (cap: usize)
        ensures
            cap == self.capacities().script_runs,
    {
        self.caps.script_runs
    }

    pub fn bidi_runs_cap(&self) -> (cap: usize)
        ensures
            cap == self.capacities().bidi_runs,
    {
        self.caps.bidi_runs
    }
}

/// A capacity that is too small grows by half and sixteen more, to what is asked for
/// if that is more, or as far as numbers go.
pub proof fn law_growth_is_roomy(current: usize, required: usize)
    requires
        current < required,
    ensures
        ({
            let roomy = current + current / 2 + 16;
            let cap = grown_cap(current, required);
            &&& roomy <= usize::MAX ==> cap >= roomy && (cap == roomy || cap == required)
            &&& roomy > usize::MAX ==> cap == usize::MAX
        }),
{
}

/// Each array of an arena grows for itself, as far as it has to.
pub proof fn law_arrays_grow_apart(
    caps: OutputCaps,
    required: OutputCaps,
    temp: ScratchCaps,
    wanted: ScratchCaps,
)
    ensures
        ({
            let next = grown_output_caps(caps, required);
            &&& next.runs >= required.runs && (caps.runs >= required.runs ==> next.runs == caps.runs)
            &&& next.spans >= required.spans && (caps.spans >= required.spans ==> next.spans
                == caps.spans)
            &&& next.cells >= required.cells && (caps.cells >= required.cells ==> next.cells
                == caps.cells)
            &&& next.cluster >= required.cluster && (caps.cluster >= required.cluster
                ==> next.cluster == caps.cluster)
            &&& next.glyph >= required.glyph && (caps.glyph >= required.glyph ==> next.glyph
                == caps.glyph)
        }),
        ({
            let next = grown_scratch_caps(temp, wanted);
            &&& next.script_runs >= wanted.script_runs && (temp.script_runs >= wanted.script_runs
                ==> next.script_runs == temp.script_runs)
            &&& next.bidi_runs >= wanted.bidi_runs && (temp.bidi_runs >= wanted.bidi_runs
                ==> next.bidi_runs == temp.bidi_runs)
            &&& next.text >= wanted.text && (temp.text >= wanted.text ==> next.text == temp.text)
            &&& next.glyph >= wanted.glyph && (temp.glyph >= wanted.glyph ==> next.glyph
                == temp.glyph)
        }),
{
}

/// The arrays of the output arena begin with the block and follow each other with no
/// more space between them than alignment takes; the block is a multiple of eight.
pub proof fn law_output_is_tight(e: OutputElements, c: OutputCaps)
    requires
        e.wf(),
        output_total(e, c) <= usize::MAX,
    ensures
        ({
            let l = output_offsets(e, c);
            &&& l.runs == 0
            &&& l.run_cell_spans < l.runs + c.runs * e.run.size + e.span.align
            &&& l.run_glyph_spans < l.run_cell_spans + c.spans * e.span.size + e.span.align
            &&& l.run_cluster_spans < l.run_glyph_spans + c.spans * e.span.size + e.span.align
            &&& l.cells < l.run_cluster_spans + c.spans * e.span.size + e.cell.align
            &&& l.cluster_map < l.cells + c.cells * e.cell.size + e.cluster.align
            &&& l.glyph_advances < l.cluster_map + c.cluster * e.cluster.size + e.advance.align
            &&& l.glyph_offsets < l.glyph_advances + c.glyph * e.advance.size + e.offset.align
            &&& l.total < l.glyph_offsets + c.glyph * e.offset.size + 8
            &&& l.total % 8 == 0
        }),
{
    lemma_output_ends(e, c);
    law_aligned(0, e.run.align as int);
    vstd::arithmetic::div_mod::lemma_small_mod(0, e.run.align as nat);
    law_aligned(output_end(e, c, 1), e.span.align as int);
    law_aligned(output_end(e, c, 2), e.span.align as int);
    law_aligned(output_end(e, c, 3), e.span.align as int);
    law_aligned(output_end(e, c, 4), e.cell.align as int);
    law_aligned(output_end(e, c, 5), e.cluster.align as int);
    law_aligned(output_end(e, c, 6), e.advance.align as int);
    law_aligned(output_end(e, c, 7), e.offset.align as int);
    law_aligned(output_end(e, c, 8), 8);
}

/// So do those of the scratch arena.
pub proof fn law_scratch_is_tight(e: ScratchElements, c: ScratchCaps)
    requires
        e.wf(),
        scratch_total(e, c) <= usize::MAX,
    ensures
        ({
            let l = scratch_offsets(e, c);
            &&& l.script_runs == 0
            &&& l.bidi_runs < l.script_runs + c.script_runs * e.script_run.size + e.bidi_run.align
            &&& l.cluster_map < l.bidi_runs + c.bidi_runs * e.bidi_run.size + e.cluster.align
            &&& l.text_props < l.cluster_map + (c.text + 1) * e.cluster.size + e.text_prop.align
            &&& l.glyph_indices < l.text_props + c.text * e.text_prop.size + e.glyph_index.align
            &&& l.glyph_props < l.glyph_indices + c.glyph * e.glyph_index.size + e.glyph_prop.align
            &&& l.glyph_advances < l.glyph_props + c.glyph * e.glyph_prop.size + e.advance.align
            &&& l.glyph_offsets < l.glyph_advances + c.glyph * e.advance.size + e.offset.align
            &&& l.total < l.glyph_offsets + c.glyph * e.offset.size + 8
            &&& l.total % 8 == 0
        }),
{
    lemma_scratch_ends(e, c);
    law_aligned(0, e.script_run.align as int);
    vstd::arithmetic::div_mod::lemma_small_mod(0, e.script_run.align as nat);
    law_aligned(scratch_end(e, c, 1), e.bidi_run.align as int);
    law_aligned(scratch_end(e, c, 2), e.cluster.align as int);
    law_aligned(scratch_end(e, c, 3), e.text_prop.align as int);
    law_aligned(scratch_end(e, c, 4), e.glyph_index.align as int);
    law_aligned(scratch_end(e, c, 5), e.glyph_prop.align as int);
    law_aligned(scratch_end(e, c, 6), e.advance.align as int);
    law_aligned(scratch_end(e, c, 7), e.offset.align as int);
    law_aligned(scratch_end(e, c, 8), 8);
}

/// Whether so many elements are copied from one place to another.
pub open spec fn carries(copies: Seq<CopyRange>, from: usize, to: usize, count: usize, size: usize) ->
    bool {
    exists|i: int|
        0 <= i < copies.len() && (#[trigger] copies[i]).from == from && copies[i].to == to
            && copies[i].len == count * size
}

/// All that is in use is copied when an output arena grows, array by array.
pub proof fn law_growth_carries_all(
    e: OutputElements,
    before: OutputLayout,
    after: OutputLayout,
    used: OutputUsed,
)
    requires
        used.runs * e.run.size <= usize::MAX,
        used.spans * e.span.size <= usize::MAX,
        used.cells * e.cell.size <= usize::MAX,
        used.cluster * e.cluster.size <= usize::MAX,
        used.glyph * e.advance.size <= usize::MAX,
        used.glyph * e.offset.size <= usize::MAX,
    ensures
        ({
            let copies = output_copies(e, before, after, used);
            &&& carries(copies, before.runs, after.runs, used.runs, e.run.size)
            &&& carries(
                copies,
                before.run_cell_spans,
                after.run_cell_spans,
                used.spans,
                e.span.size,
            )
            &&& carries(
                copies,
                before.run_glyph_spans,
                after.run_glyph_spans,
                used.spans,
                e.span.size,
            )
            &&& carries(
                copies,
                before.run_cluster_spans,
                after.run_cluster_spans,
                used.spans,
                e.span.size,
            )
            &&& carries(copies, before.cells, after.cells, used.cells, e.cell.size)
            &&& carries(
                copies,
                before.cluster_map,
                after.cluster_map,
                used.cluster,
                e.cluster.size,
            )
            &&& carries(
                copies,
                before.glyph_advances,
                after.glyph_advances,
                used.glyph,
                e.advance.size,
            )
            &&& carries(
                copies,
                before.glyph_offsets,
                after.glyph_offsets,
                used.glyph,
                e.offset.size,
            )
        }),
{
    let copies = output_copies(e, before, after, used);
    assert(0 <= used.runs * e.run.size && 0 <= used.spans * e.span.size && 0 <= used.cells
        * e.cell.size && 0 <= used.cluster * e.cluster.size && 0 <= used.glyph * e.advance.size && 0
        <= used.glyph * e.offset.size) by (nonlinear_arith);
    assert(copies.len() == 8);
    assert(copies[0].from == before.runs);
    assert(copies[1].from == before.run_cell_spans);
    assert(copies[2].from == before.run_glyph_spans);
    assert(copies[3].from == before.run_cluster_spans);
    assert(copies[4].from == before.cells);
    assert(copies[5].from == before.cluster_map);
    assert(copies[6].from == before.glyph_advances);
    assert(copies[7].from == before.glyph_offsets);
}

/// An arena without memory holds nothing, and its arrays begin at 0.
pub proof fn law_arena_without_memory()
    ensures
        ({
            let caps = no_output_caps();
            let l = no_output_layout();
            &&& caps.runs == 0 && caps.spans == 0 && caps.cells == 0 && caps.cluster == 0
                && caps.glyph == 0
            &&& l.runs == 0 && l.run_cell_spans == 0 && l.run_glyph_spans == 0
                && l.run_cluster_spans == 0 && l.cells == 0 && l.cluster_map == 0
                && l.glyph_advances == 0 && l.glyph_offsets == 0 && l.total == 0
        }),
        ({
            let caps = no_scratch_caps();
            let l = no_scratch_layout();
            &&& caps.script_runs == 0 && caps.bidi_runs == 0 && caps.text == 0 && caps.glyph == 0
            &&& l.script_runs == 0 && l.bidi_runs == 0 && l.cluster_map == 0 && l.text_props == 0
                && l.glyph_indices == 0 && l.glyph_props == 0 && l.glyph_advances == 0
                && l.glyph_offsets == 0 && l.total == 0
        }),
{
}

} // verus!
