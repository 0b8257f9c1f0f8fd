//! How tabs are drawn, how they come and go, and where they stand.
#[allow(unused_imports)]
use crate::app::tab_strip::{
    is_nearest, other_widths, place_of_tab, value_for, view_target, TabDragLayout, TabDragState,
    TabScrollTarget,
};
#[allow(unused_imports)]
use crate::app::types::TabId;
#[allow(unused_imports)]
use crate::app::workspace::{
    advanced, all_ids, animates, closed_ids, has_tab, layout_after, lemma_contains_has_place,
    lemma_entry_place, lemma_open_distinct, lemma_open_ids_contain, lemma_place_in, look_of, moved,
    neighbour, next_of, open_ids, opening_duration, place_in, previous_of, reorder_over, selectable,
    without, ReorderOffset, TabAnimationPhase, TabEntry, TabLayoutAnimation, TabOverlay,
    TabReorderAnimation, WidthChange, WorkspaceModel,
};
use vstd::prelude::*;

verus! {

/// A tab that is dragged is drawn where the drag has shown it last, whether or
/// not the drag has changed the order of the tabs.
pub proof fn law_dragged_tab_follows_the_drag(
    w: WorkspaceModel,
    layout: Option<TabDragLayout>,
    before: TabDragState,
    drag_left_x: u32,
    visual_left_x: u32,
    should_reorder: bool,
    index: int,
)
    requires
        0 <= index < w.tabs.len(),
        w.tabs[index].id == before.tab_id,
        w.dragging == Some(
            TabDragState {
                drag_left_x,
                visual_left_x,
                last_reorder_left_x: if should_reorder {
                    drag_left_x
                } else {
                    before.last_reorder_left_x
                },
                ..before
            },
        ),
    ensures
        look_of(w, layout, index).overlay == TabOverlay::Dragged(visual_left_x),
        look_of(w, layout, index).dragged,
        !look_of(w, layout, index).hovered,
{
}

/// Of the tabs just the active one is drawn as such, and just that one can be
/// dragged, once it has opened. The hovered one is drawn as such unless it is
/// dragged, and those that close are drawn as closing.
pub proof fn law_what_a_look_says(w: WorkspaceModel, layout: Option<TabDragLayout>, index: int)
    requires
        0 <= index < w.tabs.len(),
    ensures
        ({
            let look = look_of(w, layout, index);
            let tab = w.tabs[index];
            &&& look.tab_id == tab.id
            &&& look.active <==> tab.id == w.active_tab
            &&& look.draggable <==> tab.id == w.active_tab && tab.phase is Open
            &&& look.closing <==> tab.phase is Closing
            &&& look.dragged <==> (w.dragging matches Some(state) && state.tab_id == tab.id)
            &&& look.hovered <==> w.hovered_tab == Some(tab.id) && !look.dragged
        }),
{
}

/// No line is drawn right of the active tab, left of it, right or left of the
/// hovered one, or while a tab is dragged; right of every other tab there is one.
pub proof fn law_lines_between_tabs(
    w: WorkspaceModel,
    layout: Option<TabDragLayout>,
    index: int,
    active: int,
)
    requires
        w.wf(),
        0 <= index < w.tabs.len(),
        0 <= active < w.tabs.len(),
        w.tabs[active].id == w.active_tab,
    ensures
        ({
            let by_hovered = exists|at: int|
                0 <= at < w.tabs.len() && w.hovered_tab == Some((#[trigger] w.tabs[at]).id) && (at
                    == index || at == index + 1);
            look_of(w, layout, index).separator <==> {
                &&& w.dragging is None
                &&& index != active
                &&& index + 1 != active
                &&& !by_hovered
            }
        }),
{
    lemma_entry_place(w.tabs, w.active_tab, 0);
    if let Some(id) = w.hovered_tab {
        lemma_entry_place(w.tabs, id, 0);
    }
}

/// Whether a place of a layout is the first for a tab, and has a position.
pub open spec fn stands_at(layout: TabDragLayout, id: TabId, at: int) -> bool {
    &&& 0 <= at < layout.tab_ids@.len()
    &&& at < layout.positions@.len()
    &&& layout.tab_ids@[at] == id
    &&& forall|k: int| 0 <= k < at ==> #[trigger] layout.tab_ids@[k] != id
}

/// The active tab, on its way back to its place, is drawn on top at the position
/// that the layout has for it; no other tab is but the one that is dragged.
pub proof fn law_returning_tab_is_on_top(
    w: WorkspaceModel,
    layout: Option<TabDragLayout>,
    index: int,
    at: int,
)
    requires
        0 <= index < w.tabs.len(),
        w.dragging matches Some(state) ==> state.tab_id != w.tabs[index].id,
    ensures
        ({
            let overlay = look_of(w, layout, index).overlay;
            let goes_back = w.tabs[index].id == w.active_tab && w.tabs[index].reorder_animation
                is Some;
            &&& !goes_back || layout is None ==> overlay is Absent
            &&& layout matches Some(l) ==> (goes_back && stands_at(l, w.tabs[index].id, at)
                ==> overlay == TabOverlay::Returning(l.positions@[at]))
        }),
{
    if let Some(l) = layout {
        if stands_at(l, w.tabs[index].id, at) {
            law_value_of_a_tab(l.tab_ids@, l.positions@, w.tabs[index].id, at);
        }
    }
}

/// The value of a tab is the one at the tab's first place.
pub proof fn law_value_of_a_tab(ids: Seq<TabId>, values: Seq<u32>, id: TabId, at: int)
    requires
        0 <= at < ids.len(),
        ids[at] == id,
        forall|k: int| 0 <= k < at ==> #[trigger] ids[k] != id,
    ensures
        value_for(ids, values, id) == if at < values.len() {
            Some(values[at])
        } else {
            None
        },
{
    lemma_place_in(ids, id, 0);
    let found = place_of_tab(ids, id, 0);
    if found < at {
        assert(ids[found] != id);
    }
    if found > at {
        assert(ids[at] != id);
    }
}

/// A tab that is not there has no value.
pub proof fn law_value_of_no_tab(ids: Seq<TabId>, values: Seq<u32>, id: TabId)
    requires
        !ids.contains(id),
    ensures
        value_for(ids, values, id) is None,
{
    lemma_place_in(ids, id, 0);
}

/// Without the dragged tab, the widths of the tabs are those of the layout, in
/// order; they are known exactly if all of them are.
pub proof fn law_widths_of_the_others(
    tabs: Seq<TabId>,
    layout: &TabDragLayout,
    dragged: TabId,
    n: int,
)
    requires
        0 <= n <= tabs.len(),
    ensures
        ({
            let others = tabs.take(n).filter(|id: TabId| id != dragged);
            match other_widths(tabs, layout, dragged, n) {
                Some(widths) => {
                    &&& widths.len() == others.len()
                    &&& forall|k: int|
                        0 <= k < others.len() ==> Some(#[trigger] widths[k]) == value_for(
                            layout.tab_ids@,
                            layout.widths@,
                            others[k],
                        )
                },
                None => exists|k: int|
                    0 <= k < others.len() && value_for(
                        layout.tab_ids@,
                        layout.widths@,
                        #[trigger] others[k],
                    ) is None,
            }
        }),
    decreases n,
{
    reveal(Seq::filter);
    let other = |id: TabId| id != dragged;
    if n > 0 {
        law_widths_of_the_others(tabs, layout, dragged, n - 1);
        let before = tabs.take(n - 1).filter(other);
        let others = tabs.take(n).filter(other);
        assert(tabs.take(n).drop_last() =~= tabs.take(n - 1));
        assert(tabs.take(n).last() == tabs[n - 1]);
        if tabs[n - 1] != dragged {
            assert(others == before.push(tabs[n - 1]));
            match other_widths(tabs, layout, dragged, n - 1) {
                Some(widths) => {
                    assert(others[before.len() as int] == tabs[n - 1]);
                    assert forall|k: int| 0 <= k < before.len() implies others[k]
                        == #[trigger] before[k] by {}
                },
                None => {
                    let k = choose|k: int|
                        0 <= k < before.len() && value_for(
                            layout.tab_ids@,
                            layout.widths@,
                            #[trigger] before[k],
                        ) is None;
                    assert(others[k] == before[k]);
                },
            }
        }
    } else {
        assert(tabs.take(0).filter(other) =~= Seq::<TabId>::empty());
    }
}

/// The tabs that can be selected are those that are not closing, in order.
pub proof fn law_open_tabs_are_those_not_closing(tabs: Seq<TabEntry>, n: int)
    requires
        0 <= n <= tabs.len(),
    ensures
        open_ids(tabs, n) == tabs.take(n).filter(
            |e: TabEntry| !(e.phase is Closing),
        ).map_values(|e: TabEntry| e.id),
    decreases n,
{
    reveal(Seq::filter);
    let open = |e: TabEntry| !(e.phase is Closing);
    let id = |e: TabEntry| e.id;
    if n > 0 {
        law_open_tabs_are_those_not_closing(tabs, n - 1);
        assert(tabs.take(n).drop_last() =~= tabs.take(n - 1));
    }
    assert(open_ids(tabs, n) =~= tabs.take(n).filter(open).map_values(id));
}

/// The tabs that have closed are those whose closing began long enough ago.
pub proof fn law_closed_tabs_are_past_their_time(tabs: Seq<TabEntry>, now: u64, n: int)
    requires
        0 <= n <= tabs.len(),
    ensures
        closed_ids(tabs, now, n) == tabs.take(n).filter(
            |e: TabEntry|
                e.phase matches TabAnimationPhase::Closing { start, duration } && (duration == 0
                    || start + duration <= now),
        ).map_values(|e: TabEntry| e.id),
    decreases n,
{
    reveal(Seq::filter);
    let closed = |e: TabEntry|
        e.phase matches TabAnimationPhase::Closing { start, duration } && (duration == 0 || start
            + duration <= now);
    let id = |e: TabEntry| e.id;
    if n > 0 {
        law_closed_tabs_are_past_their_time(tabs, now, n - 1);
        assert(tabs.take(n).drop_last() =~= tabs.take(n - 1));
    }
    assert(closed_ids(tabs, now, n) =~= tabs.take(n).filter(closed).map_values(id));
}

/// Removing tabs keeps all the others, in order.
pub proof fn law_removal_keeps_the_others(tabs: Seq<TabEntry>, gone: Seq<TabId>, n: int)
    requires
        0 <= n <= tabs.len(),
    ensures
        without(tabs, gone, n) == tabs.take(n).filter(|e: TabEntry| !gone.contains(e.id)),
    decreases n,
{
    reveal(Seq::filter);
    let stays = |e: TabEntry| !gone.contains(e.id);
    if n > 0 {
        law_removal_keeps_the_others(tabs, gone, n - 1);
        assert(tabs.take(n).drop_last() =~= tabs.take(n - 1));
    }
    assert(without(tabs, gone, n) =~= tabs.take(n).filter(stays));
}

/// Whether something that began at `start` and takes `duration` is over.
pub open spec fn is_over(start: u64, duration: u64, now: u64) -> bool {
    duration == 0 || start + duration <= now
}

/// A tab opens for as long as its opening takes; it changes its place for 160
/// milliseconds and its width for as long as that takes; then it is at rest.
/// Nothing else about it changes.
pub proof fn law_animations_end_in_time(e: TabEntry, now: u64)
    ensures
        ({
            let after = advanced(e, now);
            &&& after.id == e.id
            &&& after.live == e.live
            &&& after.title == e.title
            &&& after.profile_icon == e.profile_icon
            &&& e.phase matches TabAnimationPhase::Opening { start, duration } ==> after.phase
                == if is_over(start, duration, now) {
                TabAnimationPhase::Open
            } else {
                e.phase
            }
            &&& !(e.phase is Opening) ==> after.phase == e.phase
            &&& after.reorder_animation == match e.reorder_animation {
                Some(animation) => if is_over(animation.start, 160_000_000, now) {
                    None
                } else {
                    Some(animation)
                },
                None => None,
            }
            &&& after.layout_animation == match e.layout_animation {
                Some(animation) => if is_over(animation.start, animation.duration, now) {
                    None
                } else {
                    Some(animation)
                },
                None => None,
            }
        }),
{
}

/// Another frame is needed for a tab exactly while it opens, closes, changes
/// its place or changes its width.
pub proof fn law_frames_while_something_moves(e: TabEntry, now: u64)
    ensures
        animates(e, now) <==> {
            let after = advanced(e, now);
            ||| after.phase is Opening
            ||| after.phase matches TabAnimationPhase::Closing { start, duration } && !is_over(
                start,
                duration,
                now,
            )
            ||| after.reorder_animation is Some
            ||| after.layout_animation is Some
        },
{
}

/// A tab whose width does not change is at rest; one that is on its way to the
/// new width goes on; any other begins now to go from its old width to the new.
pub proof fn law_change_of_width(e: TabEntry, change: WidthChange, duration: u64, now: u64)
    ensures
        ({
            let after = layout_after(e, change, duration, now);
            &&& change.same ==> after is None
            &&& !change.same && change.under_way && e.layout_animation is Some ==> after
                == e.layout_animation
            &&& !change.same && (!change.under_way || e.layout_animation is None) ==> after
                == Some(
                TabLayoutAnimation {
                    start: now,
                    duration,
                    from_width: change.from_width,
                    to_width: change.to_width,
                },
            )
        }),
{
}

/// A new tab takes 180 milliseconds to open if another tab has to make room for
/// it, else 140.
pub proof fn law_new_tab_opens(tabs: Seq<TabEntry>, changes: Seq<WidthChange>, id: TabId, i: int)
    ensures
        0 <= i < tabs.len() && tabs[i].id != id && !changes[i].same ==> opening_duration(
            tabs,
            changes,
            id,
        ) == 180_000_000,
        (forall|k: int| 0 <= k < tabs.len() && (#[trigger] tabs[k]).id != id ==> changes[k].same)
            ==> opening_duration(tabs, changes, id) == 140_000_000,
{
}

/// A tab that is off its place goes there from now on; one that is not, stays.
pub proof fn law_tab_goes_to_its_place(offset: ReorderOffset, now: u64)
    ensures
        offset.zero ==> reorder_over(offset, now) is None,
        !offset.zero ==> reorder_over(offset, now) == Some(
            TabReorderAnimation { start: now, offset_x: offset.offset_x },
        ),
{
}

/// A tab that is moved is where it was moved to; those in between make room by
/// one place, and no other tab moves.
pub proof fn law_where_tabs_stand_after_a_move<T>(list: Seq<T>, from: int, to: int, k: int)
    requires
        0 <= from < list.len(),
        0 <= to < list.len(),
        0 <= k < list.len(),
    ensures
        moved(list, from, to)[k] == if k == to {
            list[from]
        } else if from <= k < to {
            list[k + 1]
        } else if to < k <= from {
            list[k - 1]
        } else {
            list[k]
        },
{
}

/// When the active tab closes, the one after it becomes active, or the one
/// before it if it was the last.
pub proof fn law_neighbour_takes_over(open: Seq<TabId>, at: int)
    requires
        0 <= at < open.len(),
        open.len() > 1,
    ensures
        at + 1 < open.len() ==> neighbour(open, at) == open[at + 1],
        at + 1 == open.len() ==> neighbour(open, at) == open[at - 1],
{
}

/// The next tab is one place further and the one before one place back, round
/// and round.
pub proof fn law_next_and_previous(w: WorkspaceModel, at: int)
    requires
        w.wf(),
        0 <= at < w.open().len(),
        w.open()[at] == w.active_tab,
    ensures
        next_of(w.open(), w.active_tab) == w.open()[(at + 1) % w.open().len() as int],
        previous_of(w.open(), w.active_tab) == w.open()[(at + w.open().len() - 1)
            % w.open().len() as int],
{
    let open = w.open();
    let n = open.len() as int;
    lemma_contains_has_place(open, w.active_tab);
    lemma_open_distinct(w.tabs, w.tabs.len() as int);
    let found = place_in(open, w.active_tab)->0;
    assert(open.contains(w.active_tab));
    assert(found == at);
    if at + 1 == n {
        assert((at + 1) % n == 0) by (nonlinear_arith)
            requires
                at + 1 == n,
                n > 0,
        ;
    } else {
        vstd::arithmetic::div_mod::lemma_small_mod((at + 1) as nat, n as nat);
    }
    if at == 0 {
        vstd::arithmetic::div_mod::lemma_small_mod((n - 1) as nat, n as nat);
    } else {
        assert((at + n - 1) % n == at - 1) by {
            vstd::arithmetic::div_mod::lemma_mod_add_multiples_vanish(at - 1, n);
            vstd::arithmetic::div_mod::lemma_small_mod((at - 1) as nat, n as nat);
        }
    }
}

/// To see the first tab the strip scrolls to its start, to see the last to its
/// end, and to see another to that one.
pub proof fn law_scroll_into_view(index: usize, count: usize)
    ensures
        ({
            let target = view_target(index as int, count as int);
            &&& target is Stay <==> index >= count
            &&& target is Start <==> index == 0 && count > 0
            &&& target is End <==> 0 < index && index + 1 == count
            &&& 0 < index && index + 1 < count ==> target == TabScrollTarget::Item(index)
        }),
{
}

/// The place that is nearest is no farther than any other, and nearer than those
/// before it.
pub proof fn law_nearest_place(distances: Seq<u32>, index: int, other: int)
    requires
        is_nearest(distances, index),
        0 <= other < distances.len(),
        distances[other] < 0x7f7f_ffff,
    ensures
        0 <= index < distances.len(),
        distances[index] <= distances[other],
        other < index ==> distances[index] < distances[other],
{
}

/// A tab that becomes active is the active one, and is to be scrolled into view;
/// nothing else changes. One that is active already changes nothing at all.
pub proof fn law_activation(w: WorkspaceModel, id: TabId)
    ensures
        w.activated(id).active_tab == id,
        w.active_tab == id ==> w.activated(id) == w,
        w.active_tab != id ==> w.activated(id).scroll_active_tab_into_view,
        w.activated(id).tabs == w.tabs,
        w.activated(id).dragging == w.dragging,
        w.activated(id).hovered_tab == w.hovered_tab,
        w.activated(id).scroll_animation == w.scroll_animation,
{
}

/// The tabs that there are, and those that can be selected: they are the open ones.
pub proof fn law_which_tabs_there_are(tabs: Seq<TabEntry>, id: TabId)
    ensures
        all_ids(tabs).len() == tabs.len(),
        forall|i: int| 0 <= i < tabs.len() ==> all_ids(tabs)[i] == (#[trigger] tabs[i]).id,
        has_tab(tabs, id) <==> all_ids(tabs).contains(id),
        selectable(tabs, id) <==> open_ids(tabs, tabs.len() as int).contains(id),
{
    lemma_open_ids_contain(tabs, tabs.len() as int, id);
    let ids = all_ids(tabs);
    if ids.contains(id) {
        let k = choose|k: int| 0 <= k < ids.len() && ids[k] == id;
        assert(tabs[k].id == id);
    }
    if has_tab(tabs, id) {
        let k = choose|k: int| 0 <= k < tabs.len() && (#[trigger] tabs[k]).id == id;
        assert(ids[k] == id);
    }
}

/// A tab's place in a list is the first where it stands; one that stands nowhere has
/// none.
pub proof fn law_place_in_a_list(ids: Seq<TabId>, id: TabId, at: int)
    ensures
        !ids.contains(id) ==> place_in(ids, id) is None,
        0 <= at < ids.len() && ids[at] == id && (forall|j: int|
            0 <= j < at ==> #[trigger] ids[j] != id) ==> place_in(ids, id) == Some(at),
{
    lemma_place_in(ids, id, 0);
    if ids.contains(id) {
        lemma_contains_has_place(ids, id);
    }
}

} // verus!
