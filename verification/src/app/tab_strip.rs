//! The strip of tabs: durations, dragging and scrolling.
//!
//! Widths and positions are kept as the bit patterns of floating-point
//! numbers. Times are in nanoseconds.
use crate::app::profile::ProfileIconKind;
use crate::app::types::TabId;
use vstd::prelude::*;

verus! {

pub const TAB_OPEN_DURATION: u64 = 180_000_000;

pub const TAB_OPEN_FAST_DURATION: u64 = 140_000_000;

pub const TAB_CLOSE_DURATION: u64 = 160_000_000;

pub const TAB_REORDER_DURATION: u64 = 160_000_000;

pub const TAB_SCROLL_DURATION: u64 = 160_000_000;

/// The longest time that dragging scrolls by at once.
pub const TAB_DRAG_AUTOSCROLL_MAX_ELAPSED: u64 = 100_000_000;

/// The width of a tab that has none yet: 100 pixels.
pub const TAB_FALLBACK_WIDTH: u32 = 0x42c8_0000;

/// The largest floating-point number.
pub const FARTHEST: u32 = 0x7f7f_ffff;

/// A tab on the move.
#[derive(Clone, Copy, Debug)]
pub struct TabDragState {
    pub tab_id: TabId,
    pub pointer_offset_x: u32,
    /// Where the tab is shown. It stays within the view while it is dragged on.
    pub visual_left_x: u32,
    pub drag_left_x: u32,
    pub last_reorder_left_x: u32,
    pub autoscroll_pointer_x: Option<u32>,
    pub autoscroll_last_update: u64,
}

/// Where the tabs were when they were drawn last.
#[derive(Debug)]
pub struct TabDragLayout {
    pub tab_ids: Vec<TabId>,
    pub widths: Vec<u32>,
    pub positions: Vec<u32>,
    pub padding_left: u32,
}

/// The place of a tab from place `i` on, or the number of tabs.
pub open spec fn place_of_tab(ids: Seq<TabId>, id: TabId, i: int) -> int
    decreases ids.len() - i,
{
    if i < 0 || i >= ids.len() {
        ids.len() as int
    } else if ids[i] == id {
        i
    } else {
        place_of_tab(ids, id, i + 1)
    }
}

/// The value of a tab in a list that goes along with its identities.
pub open spec fn value_for(ids: Seq<TabId>, values: Seq<u32>, id: TabId) -> Option<u32> {
    let at = place_of_tab(ids, id, 0);
    if at < ids.len() && at < values.len() {
        Some(values[at])
    } else {
        None
    }
}

/// The place of a tab.
pub fn tab_place(ids: &Vec<TabId>, id: TabId) -> (place: Option<usize>)
    ensures
        match place {
            Some(place) => place == place_of_tab(ids@, id, 0) && place < ids@.len() && ids@[
                place as int
            ] == id,
            None => place_of_tab(ids@, id, 0) == ids@.len(),
        },
{
    let mut i: usize = 0;
    while i < ids.len()
        invariant
            i <= ids@.len(),
            place_of_tab(ids@, id, 0) == place_of_tab(ids@, id, i as int),
        decreases ids@.len() - i,
    {
        if ids[i] == id {
            return Some(i);
        }
        i += 1;
    }
    None
}

impl TabDragLayout {
    /// The width of a tab.
    pub fn width_for(&self, tab_id: TabId) -> (width: Option<u32>)
        ensures
            width == value_for(self.tab_ids@, self.widths@, tab_id),
    {
        match tab_place(&self.tab_ids, tab_id) {
            Some(at) => if at < self.widths.len() {
                Some(self.widths[at])
            } else {
                None
            },
            None => None,
        }
    }

    /// The position of a tab.
    pub fn position_for(&self, tab_id: TabId) -> (position: Option<u32>)
        ensures
            position == value_for(self.tab_ids@, self.positions@, tab_id),
    {
        match tab_place(&self.tab_ids, tab_id) {
            Some(at) => if at < self.positions.len() {
                Some(self.positions[at])
            } else {
                None
            },
            None => None,
        }
    }
}

/// What a move of a dragged tab comes to.
#[derive(Clone, Copy, Debug, PartialEq, Eq, Structural)]
pub struct TabDragUpdate {
    pub from_index: usize,
    pub to_index: usize,
    pub should_reorder: bool,
}

/// The place of the dragged tab and the widths of the others, in order.
#[derive(Debug)]
pub struct TabDragStart {
    pub from_index: usize,
    pub other_widths: Vec<u32>,
}

/// The widths of the first `n` tabs but for the dragged one, if all are known.
pub open spec fn other_widths(
    tabs: Seq<TabId>,
    layout: &TabDragLayout,
    dragged: TabId,
    n: int,
) -> Option<Seq<u32>>
    decreases n,
{
    if n <= 0 {
        Some(Seq::empty())
    } else {
        match other_widths(tabs, layout, dragged, n - 1) {
            None => None,
            Some(before) => if tabs[n - 1] == dragged {
                Some(before)
            } else {
                match value_for(layout.tab_ids@, layout.widths@, tabs[n - 1]) {
                    Some(width) => Some(before.push(width)),
                    None => None,
                }
            },
        }
    }
}

proof fn lemma_other_widths(
    tabs: Seq<TabId>,
    layout: &TabDragLayout,
    dragged: TabId,
    n: int,
    m: int,
)
    requires
        other_widths(tabs, layout, dragged, n) is None,
        n <= m,
    ensures
        other_widths(tabs, layout, dragged, m) is None,
    decreases m - n,
{
    if n < m {
        lemma_other_widths(tabs, layout, dragged, n, m - 1);
    }
}

/// Whether a tab is dragged already.
pub open spec fn drags(dragging: Option<TabDragState>, id: TabId) -> bool {
    dragging matches Some(state) && state.tab_id == id
}

fn widths_of_others(tabs: &Vec<TabId>, layout: &TabDragLayout, dragged_tab_id: TabId) -> (out:
    Option<Vec<u32>>)
    ensures
        match out {
            Some(widths) => other_widths(tabs@, layout, dragged_tab_id, tabs@.len() as int) == Some(
                widths@,
            ),
            None => other_widths(tabs@, layout, dragged_tab_id, tabs@.len() as int) is None,
        },
{
    let mut widths: Vec<u32> = Vec::new();
    let mut i: usize = 0;
    while i < tabs.len()
        invariant
            i <= tabs@.len(),
            other_widths(tabs@, layout, dragged_tab_id, i as int) == Some(widths@),
        decreases tabs@.len() - i,
    {
        let id = tabs[i];
        if id != dragged_tab_id {
            match layout.width_for(id) {
                Some(width) => {
                    widths.push(width);
                },
                None => {
                    proof {
                        lemma_other_widths(
                            tabs@,
                            layout,
                            dragged_tab_id,
                            i + 1,
                            tabs@.len() as int,
                        );
                    }
                    return None;
                },
            }
        }
        i += 1;
    }
    Some(widths)
}

/// Begins to drag a tab, unless it is dragged already. `pointer_offset_x` is
/// where in the tab the pointer is. Nothing comes of it if the tab, or the
/// width of another one, is not known.
pub fn begin_tab_drag(
    tabs: &Vec<TabId>,
    dragging: &mut Option<TabDragState>,
    layout: &TabDragLayout,
    dragged_tab_id: TabId,
    pointer_offset_x: u32,
    now: u64,
) -> (start: Option<TabDragStart>)
    ensures
        ({
            let known = {
                &&& place_of_tab(tabs@, dragged_tab_id, 0) < tabs@.len()
                &&& value_for(layout.tab_ids@, layout.positions@, dragged_tab_id) is Some
                &&& value_for(layout.tab_ids@, layout.widths@, dragged_tab_id) is Some
            };
            let others = other_widths(tabs@, layout, dragged_tab_id, tabs@.len() as int);
            let left = value_for(layout.tab_ids@, layout.positions@, dragged_tab_id)->0;
            &&& *final(dragging) == if known && !drags(*old(dragging), dragged_tab_id) {
                Some(
                    TabDragState {
                        tab_id: dragged_tab_id,
                        pointer_offset_x,
                        visual_left_x: left,
                        drag_left_x: left,
                        last_reorder_left_x: left,
                        autoscroll_pointer_x: None,
                        autoscroll_last_update: now,
                    },
                )
            } else {
                *old(dragging)
            }
            &&& match start {
                Some(start) => {
                    &&& known
                    &&& others == Some(start.other_widths@)
                    &&& start.from_index == place_of_tab(tabs@, dragged_tab_id, 0)
                },
                None => !known || others is None,
            }
        }),
{
    let from_index: usize = match tab_place(tabs, dragged_tab_id) {
        Some(at) => at,
        None => {
            return None;
        },
    };
    let left: u32 = match layout.position_for(dragged_tab_id) {
        Some(left) => left,
        None => {
            return None;
        },
    };
    if layout.width_for(dragged_tab_id).is_none() {
        return None;
    }
    let goes_on: bool = match dragging {
        Some(state) => state.tab_id == dragged_tab_id,
        None => false,
    };
    if !goes_on {
        *dragging = Some(
            TabDragState {
                tab_id: dragged_tab_id,
                pointer_offset_x,
                visual_left_x: left,
                drag_left_x: left,
                last_reorder_left_x: left,
                autoscroll_pointer_x: None,
                autoscroll_last_update: now,
            },
        );
    }
    match widths_of_others(tabs, layout, dragged_tab_id) {
        Some(other_widths) => Some(TabDragStart { from_index, other_widths }),
        None => None,
    }
}

/// A place is the first that is nearest, or the first of all if none is in
/// reach.
pub open spec fn is_nearest(distances: Seq<u32>, index: int) -> bool {
    if exists|i: int| 0 <= i < distances.len() && (#[trigger] distances[i]) < FARTHEST {
        &&& 0 <= index < distances.len()
        &&& forall|j: int|
            0 <= j < distances.len() ==> distances[index] <= #[trigger] distances[j]
        &&& forall|j: int| 0 <= j < index ==> distances[index] < #[trigger] distances[j]
    } else {
        index == 0
    }
}

/// The place that is nearest, given how far each is, as bit patterns of
/// numbers that are not negative. Of places equally near it is the first. What
/// is no number, or beyond the largest one, is no place at all.
pub fn tab_drag_target_index(distances: &Vec<u32>) -> (index: usize)
    ensures
        is_nearest(distances@, index as int),
{
    let mut best: usize = 0;
    let mut least: u32 = FARTHEST;
    let mut i: usize = 0;
    while i < distances.len()
        invariant
            i <= distances@.len(),
            least <= FARTHEST,
            least == FARTHEST ==> best == 0,
            least < FARTHEST ==> best < i && distances@[best as int] == least,
            forall|j: int| 0 <= j < i ==> least <= #[trigger] distances@[j],
            least < FARTHEST ==> forall|j: int| 0 <= j < best ==> least < #[trigger] distances@[j],
        decreases distances@.len() - i,
    {
        if distances[i] < least {
            least = distances[i];
            best = i;
        }
        i += 1;
    }
    best
}

/// Takes note of where a dragged tab is now, and says where it belongs.
pub fn finish_tab_drag(
    dragging: &mut Option<TabDragState>,
    from_index: usize,
    drag_left_x: u32,
    visual_left_x: u32,
    distances: &Vec<u32>,
    should_reorder: bool,
) -> (update: Option<TabDragUpdate>)
    ensures
        match *old(dragging) {
            None => update is None && *final(dragging) is None,
            Some(state) => {
                &&& *final(dragging) == Some(
                    TabDragState {
                        drag_left_x,
                        visual_left_x,
                        last_reorder_left_x: if should_reorder {
                            drag_left_x
                        } else {
                            state.last_reorder_left_x
                        },
                        ..state
                    },
                )
                &&& update matches Some(update) && update.from_index == from_index
                    && update.should_reorder == should_reorder && is_nearest(
                    distances@,
                    update.to_index as int,
                )
            },
        },
{
    let to_index = tab_drag_target_index(distances);
    match *dragging {
        None => None,
        Some(state) => {
            let mut next = state;
            next.drag_left_x = drag_left_x;
            next.visual_left_x = visual_left_x;
            if should_reorder {
                next.last_reorder_left_x = drag_left_x;
            }
            *dragging = Some(next);
            Some(TabDragUpdate { from_index, to_index, should_reorder })
        },
    }
}

/// No two places are nearest.
pub proof fn law_nearest_is_one(distances: Seq<u32>, a: int, b: int)
    requires
        is_nearest(distances, a),
        is_nearest(distances, b),
    ensures
        a == b,
{
    if a < b {
        assert(distances[b] < distances[a] || a == b);
    } else if b < a {
        assert(distances[a] < distances[b] || a == b);
    }
}

/// What a drag does to the tabs.
#[derive(Clone, Copy, Debug, PartialEq, Eq, Structural)]
pub enum TabDragMove {
    /// Nothing: the tab or the layout is not known.
    Ignored,
    /// The dragged tab moves, but no tab changes its place.
    InPlace,
    /// The tab at one place goes to another.
    Reorder { from: usize, to: usize },
}

/// What a drag does to the tabs: their order changes only if the tab is nearer to
/// another place and has gone far enough.
pub fn tab_drag_move(update: Option<TabDragUpdate>) -> (outcome: TabDragMove)
    ensures
        outcome == match update {
            None => TabDragMove::Ignored,
            Some(update) => if update.from_index != update.to_index && update.should_reorder {
                TabDragMove::Reorder { from: update.from_index, to: update.to_index }
            } else {
                TabDragMove::InPlace
            },
        },
{
    match update {
        None => TabDragMove::Ignored,
        Some(update) => if update.from_index != update.to_index && update.should_reorder {
            TabDragMove::Reorder { from: update.from_index, to: update.to_index }
        } else {
            TabDragMove::InPlace
        },
    }
}

/// Which way the strip scrolls.
#[derive(Clone, Copy, Debug, PartialEq, Eq, Structural)]
pub enum TabScrollDirection {
    Left,
    Right,
}

/// Whether a scroll was made or is still to come.
#[derive(Clone, Copy, Debug, PartialEq, Eq, Structural)]
pub enum TabScrollUpdate {
    Applied,
    Deferred,
}

/// Where to scroll to.
#[derive(Clone, Copy, Debug, PartialEq, Eq, Structural)]
pub enum TabScrollTarget {
    Stay,
    Start,
    End,
    Item(usize),
}

impl TabScrollTarget {
    /// Only a scroll to a tab in the middle is deferred.
    pub fn update(self) -> (update: TabScrollUpdate)
        ensures
            update is Deferred == self is Item,
    {
        match self {
            TabScrollTarget::Item(_) => TabScrollUpdate::Deferred,
            _ => TabScrollUpdate::Applied,
        }
    }
}

/// Where to scroll so that a tab is in view: to an end for the first and the
/// last one.
pub open spec fn view_target(active_index: int, tab_count: int) -> TabScrollTarget {
    if active_index >= tab_count {
        TabScrollTarget::Stay
    } else if active_index == 0 {
        TabScrollTarget::Start
    } else if active_index + 1 == tab_count {
        TabScrollTarget::End
    } else {
        TabScrollTarget::Item(active_index as usize)
    }
}

pub fn scroll_tab_into_view(active_index: usize, tab_count: usize) -> (target: TabScrollTarget)
    ensures
        target == view_target(active_index as int, tab_count as int),
{
    if active_index >= tab_count {
        TabScrollTarget::Stay
    } else if active_index == 0 {
        TabScrollTarget::Start
    } else if active_index + 1 == tab_count {
        TabScrollTarget::End
    } else {
        TabScrollTarget::Item(active_index)
    }
}

/// Background and glyph of an icon, the background in red, green, blue and
/// alpha.
pub fn profile_icon_look(icon: ProfileIconKind) -> (look: (u32, char))
    ensures
        look == match icon {
            ProfileIconKind::PowerShell => (0x2f7df6ffu32, '>'),
            ProfileIconKind::CommandPrompt => (0x2f2f2fffu32, '_'),
            ProfileIconKind::Linux => (0x2f8f57ffu32, '>'),
            ProfileIconKind::Terminal => (0x5a5a5affu32, '>'),
        },
{
    match icon {
        ProfileIconKind::PowerShell => (0x2f7d_f6ff, '>'),
        ProfileIconKind::CommandPrompt => (0x2f2f_2fff, '_'),
        ProfileIconKind::Linux => (0x2f8f_57ff, '>'),
        ProfileIconKind::Terminal => (0x5a5a_5aff, '>'),
    }
}

/// A tab is dragged if it is the one that the drag is about.
pub proof fn law_what_is_dragged(dragging: Option<TabDragState>, id: TabId)
    ensures
        dragging is None ==> !drags(dragging, id),
        dragging is Some ==> (drags(dragging, id) <==> dragging->0.tab_id == id),
{
}

/// The times of the strip in milliseconds, counted in nanoseconds, and the width of a
/// tab that was not drawn yet: 100 pixels.
pub proof fn law_measures_of_the_strip()
    ensures
        TAB_OPEN_DURATION == 180 * 1_000_000,
        TAB_OPEN_FAST_DURATION == 140 * 1_000_000,
        TAB_CLOSE_DURATION == 160 * 1_000_000,
        TAB_REORDER_DURATION == 160 * 1_000_000,
        TAB_SCROLL_DURATION == 160 * 1_000_000,
        TAB_DRAG_AUTOSCROLL_MAX_ELAPSED == 100 * 1_000_000,
        crate::font::settings::whole_part(TAB_FALLBACK_WIDTH) == 100,
        TAB_FALLBACK_WIDTH % 0x1_0000 == 0,
{
    assert(crate::font::settings::whole_part(TAB_FALLBACK_WIDTH) == 100) by {
        reveal_with_fuel(crate::font::settings::halved, 18);
    }
}

} // verus!
