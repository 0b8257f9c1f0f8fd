use rustty::app::actions::{action_of_digit, SelectTab, TabAction};
use rustty::app::profile::ProfileIconKind;
use rustty::app::tab_strip::{
    begin_tab_drag, finish_tab_drag, profile_icon_look, scroll_tab_into_view, tab_drag_move,
    tab_drag_target_index, TabDragLayout, TabDragMove, TabDragState,
    TabDragUpdate, TabScrollTarget, TabScrollUpdate, TAB_CLOSE_DURATION, TAB_FALLBACK_WIDTH,
    TAB_OPEN_DURATION, TAB_OPEN_FAST_DURATION, TAB_REORDER_DURATION,
};
use rustty::app::types::{IdCounter, TabId};
use rustty::app::workspace::{
    move_tab_entries_to_index, Activation, Closure, ReorderOffset, TabAnimationPhase, TabOverlay,
    WidthChange, WindowClose, Workspace,
};

fn three(ids: &mut IdCounter) -> (TabId, TabId, TabId) {
    (TabId::new(ids), TabId::new(ids), TabId::new(ids))
}

#[test]
fn move_tab_to_index_moves_first_tab_to_second_position() {
    let (first, second, third) = three(&mut IdCounter::new());
    let mut tabs = vec![first, second, third];

    move_tab_entries_to_index(&mut tabs, 0, 1);

    assert_eq!(tabs, vec![second, first, third]);
}

#[test]
fn move_tab_to_index_moves_last_tab_to_first_position() {
    let (first, second, third) = three(&mut IdCounter::new());
    let mut tabs = vec![first, second, third];

    move_tab_entries_to_index(&mut tabs, 2, 0);

    assert_eq!(tabs, vec![third, first, second]);
}

#[test]
fn move_tab_to_index_is_no_op_when_target_matches_source() {
    let (first, second, third) = three(&mut IdCounter::new());
    let mut tabs = vec![first, second, third];

    move_tab_entries_to_index(&mut tabs, 1, 1);

    assert_eq!(tabs, vec![first, second, third]);
}

#[test]
fn move_tab_to_index_keeps_active_tab_id_stable() {
    let (first, second, third) = three(&mut IdCounter::new());
    let active_tab = second;
    let mut tabs = vec![first, second, third];

    move_tab_entries_to_index(&mut tabs, 2, 0);

    assert_eq!(active_tab, second);
    assert!(tabs.contains(&active_tab));
}

#[test]
fn a_move_is_undone_by_the_move_back() {
    let mut list = vec![1, 2, 3, 4, 5];
    move_tab_entries_to_index(&mut list, 1, 3);
    assert_eq!(list, vec![1, 3, 4, 2, 5]);
    move_tab_entries_to_index(&mut list, 3, 1);
    assert_eq!(list, vec![1, 2, 3, 4, 5]);
    move_tab_entries_to_index(&mut list, 9, 0);
    assert_eq!(list, vec![1, 2, 3, 4, 5]);
}

fn drag_layout(ids: &[TabId], widths: &[f32], padding: f32) -> TabDragLayout {
    let mut x = padding;
    let mut positions = Vec::new();
    for width in widths {
        positions.push(x.to_bits());
        x += *width;
    }
    TabDragLayout {
        tab_ids: ids.to_vec(),
        widths: widths.iter().map(|w| w.to_bits()).collect(),
        positions,
        padding_left: padding.to_bits(),
    }
}

fn distances(others: &[u32], padding: f32, left: f32) -> Vec<u32> {
    let mut x = padding;
    let mut out = vec![(x - left).abs().to_bits()];
    for width in others {
        x += f32::from_bits(*width);
        out.push((x - left).abs().to_bits());
    }
    out
}

#[test]
fn tab_drag_target_index_ignores_dragged_tab_slot() {
    let (first, second, third) = three(&mut IdCounter::new());
    let tabs = vec![first, second, third];
    let layout = drag_layout(&tabs, &[100., 100., 100.], 4.);
    let start = begin_tab_drag(&tabs, &mut None, &layout, second, 0, 0).unwrap();
    let target_index = tab_drag_target_index(&distances(&start.other_widths, 4., 215.));
    assert_eq!(Some(target_index), Some(2));
}

#[test]
fn tab_drag_target_index_handles_unequal_widths() {
    let (first, second, third) = three(&mut IdCounter::new());
    let tabs = vec![first, second, third];
    let layout = drag_layout(&tabs, &[140., 80., 120.], 4.);
    let start = begin_tab_drag(&tabs, &mut None, &layout, third, 0, 0).unwrap();
    let target_index = tab_drag_target_index(&distances(&start.other_widths, 4., 10.));
    assert_eq!(Some(target_index), Some(0));
}

#[test]
fn tab_drag_content_position_keeps_reordering_when_visual_position_is_pinned() {
    let mut ids = IdCounter::new();
    let (first, second, third) = three(&mut ids);
    let fourth = TabId::new(&mut ids);
    let fifth = TabId::new(&mut ids);
    let tabs = vec![first, second, third, fourth, fifth];
    let layout = drag_layout(&tabs, &[100., 100., 100., 100., 100.], 4.);
    let mut dragging = None;

    let drag = |dragging: &mut Option<TabDragState>, pointer_x: f32, bounds: Option<(f32, f32)>| {
        let tab_left = f32::from_bits(layout.position_for(second).unwrap());
        let width = f32::from_bits(layout.width_for(second).unwrap());
        let offset = (pointer_x - tab_left).clamp(0., width);
        let start = begin_tab_drag(&tabs, dragging, &layout, second, offset.to_bits(), 0).unwrap();
        let state = dragging.unwrap();
        let mut drag_max = 4.;
        for width in &start.other_widths {
            drag_max += f32::from_bits(*width);
        }
        let left = (pointer_x - f32::from_bits(state.pointer_offset_x)).clamp(4., drag_max);
        let visual = match bounds {
            Some((min, max)) => left.clamp(min, max),
            None => left,
        };
        finish_tab_drag(
            dragging,
            start.from_index,
            left.to_bits(),
            visual.to_bits(),
            &distances(&start.other_widths, 4., left),
            (left - f32::from_bits(state.last_reorder_left_x)).abs() >= 12.,
        )
    };

    drag(&mut dragging, 114., None);
    let update = drag(&mut dragging, 650., Some((4., 304.))).expect("drag update");

    let drag_state = dragging.expect("drag state");
    assert_eq!(f32::from_bits(drag_state.drag_left_x), 404.);
    assert_eq!(f32::from_bits(drag_state.visual_left_x), 304.);
    assert_eq!(update.to_index, 4);
}

#[test]
fn the_first_of_the_nearest_places_wins() {
    assert_eq!(tab_drag_target_index(&vec![]), 0);
    let near = |values: &[f32]| {
        let bits: Vec<u32> = values.iter().map(|v| v.to_bits()).collect();
        tab_drag_target_index(&bits)
    };
    assert_eq!(near(&[3.0, 1.0, 1.0, 2.0]), 1);
    assert_eq!(near(&[f32::INFINITY, f32::NAN]), 0);
    assert_eq!(near(&[f32::NAN, 5.0]), 1);
}

#[test]
fn a_drag_begins_where_the_tab_is_and_goes_on() {
    let (first, second, third) = three(&mut IdCounter::new());
    let tabs = vec![first, second, third];
    let layout = drag_layout(&tabs, &[100., 100., 100.], 4.);
    let mut dragging = None;
    let start = begin_tab_drag(&tabs, &mut dragging, &layout, second, 10f32.to_bits(), 3).unwrap();
    assert_eq!(start.from_index, 1);
    let state = dragging.unwrap();
    assert_eq!(f32::from_bits(state.drag_left_x), 104.);
    assert_eq!(state.autoscroll_last_update, 3);
    let update = finish_tab_drag(
        &mut dragging,
        start.from_index,
        404f32.to_bits(),
        304f32.to_bits(),
        &distances(&start.other_widths, 4., 404.),
        true,
    )
    .unwrap();
    assert_eq!((update.from_index, update.to_index), (1, 2));
    assert!(update.should_reorder);
    let state = dragging.unwrap();
    assert_eq!(f32::from_bits(state.visual_left_x), 304.);
    assert_eq!(f32::from_bits(state.last_reorder_left_x), 404.);
    // The second step keeps where in the tab the pointer is.
    begin_tab_drag(&tabs, &mut dragging, &layout, second, 0, 9).unwrap();
    assert_eq!(dragging.unwrap().pointer_offset_x, 10f32.to_bits());
    // A tab that was not laid out cannot be dragged.
    let mut ids = IdCounter::new();
    let _ = three(&mut ids);
    let other = TabId::new(&mut ids);
    assert!(begin_tab_drag(&tabs, &mut dragging, &layout, other, 0, 0).is_none());
    assert!(finish_tab_drag(&mut None, 0, 0, 0, &vec![], false).is_none());
}

#[test]
fn a_drag_reorders_only_when_it_has_gone_far_enough() {
    let update = |to_index: usize, should_reorder: bool| {
        tab_drag_move(Some(TabDragUpdate { from_index: 1, to_index, should_reorder }))
    };
    assert_eq!(tab_drag_move(None), TabDragMove::Ignored);
    assert_eq!(update(1, true), TabDragMove::InPlace);
    assert_eq!(update(2, false), TabDragMove::InPlace);
    assert_eq!(update(2, true), TabDragMove::Reorder { from: 1, to: 2 });
}

#[test]
fn layouts_answer_for_their_tabs() {
    let (first, second, third) = three(&mut IdCounter::new());
    let layout = drag_layout(&[first, second], &[50., 60.], 4.);
    assert_eq!(layout.width_for(second), Some(60f32.to_bits()));
    assert_eq!(layout.position_for(second), Some(54f32.to_bits()));
    assert_eq!(layout.width_for(third), None);
    assert_eq!(layout.position_for(third), None);
}

#[test]
fn ends_of_the_strip_are_reached_exactly() {
    assert_eq!(scroll_tab_into_view(5, 5), TabScrollTarget::Stay);
    assert_eq!(scroll_tab_into_view(0, 5), TabScrollTarget::Start);
    assert_eq!(scroll_tab_into_view(4, 5), TabScrollTarget::End);
    assert_eq!(scroll_tab_into_view(2, 5), TabScrollTarget::Item(2));
    assert_eq!(TabScrollTarget::Item(2).update(), TabScrollUpdate::Deferred);
    assert_eq!(TabScrollTarget::End.update(), TabScrollUpdate::Applied);
}

#[test]
fn digit_keys_select_tabs() {
    assert_eq!(action_of_digit(1), Some(TabAction::Select(SelectTab { index: 0 })));
    assert_eq!(action_of_digit(9), Some(TabAction::Select(SelectTab { index: 8 })));
    assert_eq!(action_of_digit(0), None);
    assert_eq!(profile_icon_look(ProfileIconKind::CommandPrompt), (0x2f2f_2fff, '_'));
}

fn workspace(ids: &mut IdCounter, count: usize) -> (Workspace, Vec<TabId>) {
    let first = TabId::new(ids);
    let mut all = vec![first];
    let mut w = Workspace::new(first, "t".to_string(), ProfileIconKind::Terminal);
    while all.len() < count {
        let id = TabId::new(ids);
        w.new_tab(id, "t".to_string(), ProfileIconKind::Terminal, 0);
        all.push(id);
    }
    (w, all)
}

#[test]
fn tabs_are_selected_in_a_circle() {
    let (mut w, all) = workspace(&mut IdCounter::new(), 3);
    assert_eq!(w.active_tab(), all[2]);
    assert_eq!(w.select_next_tab(), Activation::Changed);
    assert_eq!(w.active_tab(), all[0]);
    assert_eq!(w.select_previous_tab(), Activation::Changed);
    assert_eq!(w.active_tab(), all[2]);
    assert_eq!(w.select_tab_index(1), Activation::Changed);
    assert_eq!(w.select_tab_index(1), Activation::Same);
    assert_eq!(w.select_tab_index(7), Activation::Ignored);
    assert_eq!(w.active_tab(), all[1]);
    assert_eq!(w.activate_tab(all[0]), Activation::Changed);
}

#[test]
fn closing_the_active_tab_activates_its_neighbour() {
    let (mut w, all) = workspace(&mut IdCounter::new(), 3);
    w.activate_tab(all[1]);
    assert_eq!(w.close_tab(all[1], 10), Closure::TabCloses { activated: true });
    assert_eq!(w.active_tab(), all[2]);
    assert_eq!(w.open_tab_count(), 2);
    assert_eq!(w.close_tab(all[1], 11), Closure::Ignored);
    assert_eq!(w.activate_tab(all[1]), Activation::Ignored);
    assert_eq!(w.close_tab(all[2], 12), Closure::TabCloses { activated: true });
    assert_eq!(w.active_tab(), all[0]);
    assert_eq!(w.close_tab(all[0], 13), Closure::WindowCloses);
    assert_eq!(w.tab_ids(), all);
}

#[test]
fn closing_another_tab_keeps_the_active_one() {
    let (mut w, all) = workspace(&mut IdCounter::new(), 3);
    assert_eq!(w.close_tab(all[0], 10), Closure::TabCloses { activated: false });
    assert_eq!(w.active_tab(), all[2]);
    assert!(!w.entry(all[0]).unwrap().live);
    assert_eq!(w.selectable_index(all[2]), Some(1));
    assert_eq!(w.selectable_index(all[0]), None);
    assert_eq!(w.selectable_tab_id_at(0), Some(all[1]));
}

#[test]
fn animations_end_and_closed_tabs_go() {
    let (mut w, all) = workspace(&mut IdCounter::new(), 3);
    let step = w.advance_tab_animations(TAB_OPEN_DURATION - 1);
    assert!(step.needs_frame);
    assert!(step.closed.is_empty());
    let step = w.advance_tab_animations(TAB_OPEN_DURATION);
    assert!(!step.needs_frame);
    w.set_hovered_tab(all[0], true);
    w.close_tab(all[0], 1000);
    let step = w.advance_tab_animations(1000 + TAB_CLOSE_DURATION);
    assert_eq!(step.closed, vec![all[0]]);
    w.remove_closed_tabs(&step.closed);
    assert_eq!(w.tab_ids(), vec![all[1], all[2]]);
    assert_eq!(w.hovered_tab(), None);
    assert_eq!(w.active_tab(), all[2]);
}

#[test]
fn hovering_changes_once() {
    let (mut w, all) = workspace(&mut IdCounter::new(), 2);
    assert!(w.set_hovered_tab(all[0], true));
    assert!(!w.set_hovered_tab(all[0], true));
    assert!(!w.set_hovered_tab(all[1], false));
    assert!(w.set_hovered_tab(all[0], false));
    assert_eq!(w.hovered_tab(), None);
}

#[test]
fn a_window_with_several_tabs_asks() {
    let (w, _) = workspace(&mut IdCounter::new(), 1);
    assert_eq!(w.handle_window_should_close(), WindowClose::Allowed);
    let (w, _) = workspace(&mut IdCounter::new(), 3);
    assert_eq!(w.handle_window_should_close(), WindowClose::Ask { tabs: 3 });
}

#[test]
fn a_new_tab_opens_faster_if_none_makes_room() {
    let change = |same: bool| WidthChange { from_width: 1, to_width: 2, same, under_way: false };
    let (mut w, all) = workspace(&mut IdCounter::new(), 2);
    w.settle_new_tab(all[1], &vec![change(false), change(false)], 10);
    assert!(matches!(
        w.tabs()[1].phase,
        TabAnimationPhase::Opening { start: 10, duration: TAB_OPEN_DURATION }
    ));
    assert_eq!(w.tabs()[0].layout_animation.unwrap().duration, TAB_OPEN_DURATION);
    let (mut w, all) = workspace(&mut IdCounter::new(), 2);
    w.settle_new_tab(all[1], &vec![change(true), change(false)], 10);
    assert!(matches!(
        w.tabs()[1].phase,
        TabAnimationPhase::Opening { start: 10, duration: TAB_OPEN_FAST_DURATION }
    ));
    assert_eq!(w.tabs()[1].layout_animation.unwrap().duration, TAB_OPEN_FAST_DURATION);
    assert!(w.tabs()[0].layout_animation.is_none());
}

#[test]
fn widths_and_their_animations() {
    let (mut w, all) = workspace(&mut IdCounter::new(), 2);
    w.close_tab(all[0], 0);
    assert_eq!(w.tab_widths_for_selectable_width(7), vec![0, 7]);
    assert!(w.tab_widths_change(&vec![true, false], all[1]));
    assert!(!w.tab_widths_change(&vec![true, false], all[0]));
    let change = |same: bool, under_way: bool| WidthChange {
        from_width: 1,
        to_width: 2,
        same,
        under_way,
    };
    w.start_tab_layout_animation(&vec![change(false, false), change(true, false)], 5, 100);
    assert_eq!(w.tabs()[0].layout_animation.unwrap().start, 100);
    assert!(w.tabs()[1].layout_animation.is_none());
    w.start_tab_layout_animation(&vec![change(false, true), change(false, true)], 5, 200);
    assert_eq!(w.tabs()[0].layout_animation.unwrap().start, 100);
    assert_eq!(w.tabs()[1].layout_animation.unwrap().start, 200);
    assert_eq!(w.dragged_tab_width(all[1]), TAB_FALLBACK_WIDTH);
    assert_eq!(f32::from_bits(TAB_FALLBACK_WIDTH), 100.0);
}

#[test]
fn the_strip_scrolls_to_the_active_tab() {
    let (mut w, all) = workspace(&mut IdCounter::new(), 4);
    let layout = |w: &Workspace| drag_layout(&w.tab_ids(), &[100., 100., 100., 100.], 4.);
    // The new tab is opening: it is kept in view.
    let plan = w.prepare_render(true, layout(&w));
    assert_eq!(plan.target, TabScrollTarget::End);
    assert!(!plan.needs_frame);
    w.advance_tab_animations(TAB_OPEN_DURATION);
    w.activate_tab(all[1]);
    let plan = w.prepare_render(true, layout(&w));
    assert_eq!(plan.target, TabScrollTarget::Item(1));
    assert!(plan.needs_frame);
    let plan = w.prepare_render(true, layout(&w));
    assert_eq!(plan.target, TabScrollTarget::Stay);
    assert!(w.is_scrollable());
}

#[test]
fn tabs_are_drawn_as_they_are() {
    let (mut w, all) = workspace(&mut IdCounter::new(), 4);
    w.advance_tab_animations(TAB_OPEN_DURATION);
    w.activate_tab(all[2]);
    w.set_hovered_tab(all[0], true);
    let look = w.tab_look(2);
    assert!(look.active && look.draggable && !look.closing && !look.dragged);
    assert_eq!(look.overlay, TabOverlay::Absent);
    let lines: Vec<bool> = (0..4).map(|i| w.tab_look(i).separator).collect();
    assert_eq!(lines, vec![false, false, false, true]);
    assert!(w.tab_look(0).hovered);
    w.close_tab(all[3], 0);
    assert!(w.tab_look(3).closing);
}

#[test]
fn a_dragged_tab_moves_and_returns() {
    let (mut w, all) = workspace(&mut IdCounter::new(), 3);
    assert!(!w.move_tab_to_index(2, 0));
    let layout = drag_layout(&all, &[100., 100., 100.], 4.);
    w.prepare_render(false, layout);
    let mut dragging = w.dragging();
    let tabs = w.tab_ids();
    if let Some(layout) = w.drag_layout() {
        begin_tab_drag(&tabs, &mut dragging, layout, all[2], 0, 0).unwrap();
    }
    w.set_dragging(dragging);
    assert!(matches!(w.tab_look(2).overlay, TabOverlay::Dragged(_)));
    assert!(!w.tab_look(0).separator);
    assert!(w.move_tab_to_index(2, 0));
    assert_eq!(w.tab_ids(), vec![all[2], all[0], all[1]]);
    let offset = Some(ReorderOffset { offset_x: 1, zero: false });
    w.start_reorder_animations(all[2], &vec![offset, offset, None], 50);
    assert!(w.tabs()[0].reorder_animation.is_none());
    assert_eq!(w.tabs()[1].reorder_animation.unwrap().start, 50);
    assert!(w.tabs()[2].reorder_animation.is_none());
    let state: TabDragState = w.take_drag().unwrap();
    assert_eq!(state.tab_id, all[2]);
    w.start_tab_drag_return_animation(all[2], ReorderOffset { offset_x: 9, zero: false }, 60);
    assert_eq!(w.tabs()[0].reorder_animation.unwrap().offset_x, 9);
    assert!(matches!(w.tab_look(0).overlay, TabOverlay::Returning(_)));
    w.advance_tab_animations(60 + TAB_REORDER_DURATION);
    assert_eq!(w.tab_look(0).overlay, TabOverlay::Absent);
}

#[test]
fn dragging_scrolls_at_the_edge() {
    let (mut w, all) = workspace(&mut IdCounter::new(), 2);
    assert!(!w.update_tab_drag_autoscroll(true, true, 3, 0));
    let layout = drag_layout(&all, &[100., 100.], 4.);
    let mut dragging = None;
    begin_tab_drag(&all, &mut dragging, &layout, all[1], 0, 0).unwrap();
    w.prepare_render(true, layout);
    w.set_dragging(dragging);
    w.start_tab_scroll_animation(Some(8), 2, 0);
    assert!(w.update_tab_drag_autoscroll(true, true, 3, 1_000));
    assert!(w.scroll_animation().is_none());
    let step = w.advance_tab_drag_autoscroll(5_000).unwrap();
    assert_eq!((step.tab_id, step.pointer_x, step.elapsed), (all[1], 3, 4_000));
    let step = w.advance_tab_drag_autoscroll(900_000_000).unwrap();
    assert_eq!(step.elapsed, 100_000_000);
    assert!(!w.update_tab_drag_autoscroll(true, false, 3, 0));
    assert!(w.advance_tab_drag_autoscroll(0).is_none());
}

#[test]
fn scrolling_ends_where_it_arrives() {
    let (mut w, _) = workspace(&mut IdCounter::new(), 1);
    assert!(!w.start_tab_scroll_animation(None, 0, 0));
    assert!(w.start_tab_scroll_animation(Some(4), 1, 7));
    assert_eq!(w.scroll_animation().unwrap().start, 7);
    assert!(w.advance_tab_scroll_animation(false));
    assert!(!w.advance_tab_scroll_animation(true));
    assert!(w.scroll_animation().is_none());
}

#[test]
fn titles_follow_their_sessions() {
    let mut ids = IdCounter::new();
    let (mut w, all) = workspace(&mut ids, 2);
    w.set_title(all[0], "vim".to_string());
    assert_eq!(w.entry(all[0]).unwrap().title, "vim");
    assert_eq!(w.entry(all[1]).unwrap().title, "t");
    let gone = TabId::new(&mut ids);
    w.set_title(gone, "x".to_string());
    assert!(w.entry(gone).is_none());
    assert_eq!(w.entry_index(all[1]), Some(1));
}

#[test]
fn an_opening_tab_can_take_less_time() {
    let (mut w, all) = workspace(&mut IdCounter::new(), 2);
    w.set_opening(all[1], 50, 10);
    assert!(w.advance_tab_animations(59).needs_frame);
    assert!(!w.advance_tab_animations(60).needs_frame);
}
