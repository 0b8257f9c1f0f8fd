//! The tabs of a window.
//!
//! A workspace knows which tabs there are, which of them is active, and how
//! they are animated, dragged and scrolled. Sessions, views and pixels belong
//! to whoever shows it: a tab only says whether it is live. Widths and
//! positions are bit patterns of floating-point numbers, times nanoseconds.
use crate::app::profile::ProfileIconKind;
use crate::app::tab_strip::{
    scroll_tab_into_view, TabDragLayout, TabDragState, TabScrollTarget,
    TabScrollUpdate, TAB_CLOSE_DURATION, TAB_DRAG_AUTOSCROLL_MAX_ELAPSED, TAB_FALLBACK_WIDTH,
    TAB_OPEN_DURATION, TAB_OPEN_FAST_DURATION, TAB_REORDER_DURATION,
};
#[allow(unused_imports)]
use crate::app::tab_strip::{drags, value_for, view_target};
use crate::app::types::TabId;
use vstd::prelude::*;

verus! {

/// How a tab comes and goes.
#[derive(Clone, Copy, Debug)]
pub enum TabAnimationPhase {
    Opening { start: u64, duration: u64 },
    Open,
    Closing { start: u64, duration: u64 },
}

/// A tab on its way to another place.
#[derive(Clone, Copy, Debug)]
pub struct TabReorderAnimation {
    pub start: u64,
    pub offset_x: u32,
}

/// The strip on its way to another offset.
#[derive(Clone, Copy, Debug)]
pub struct TabScrollAnimation {
    pub start: u64,
    pub from_x: u32,
    pub to_x: u32,
}

/// A tab on its way to another width.
#[derive(Clone, Copy, Debug)]
pub struct TabLayoutAnimation {
    pub start: u64,
    pub duration: u64,
    pub from_width: u32,
    pub to_width: u32,
}

/// A tab.
#[derive(Debug)]
pub struct TabEntry {
    pub id: TabId,
    /// Whether the tab has a session and a view.
    pub live: bool,
    pub title: String,
    pub profile_icon: ProfileIconKind,
    pub phase: TabAnimationPhase,
    pub reorder_animation: Option<TabReorderAnimation>,
    pub layout_animation: Option<TabLayoutAnimation>,
}

impl TabEntry {
    /// A tab at rest in its place.
    pub fn new(id: TabId, title: String, profile_icon: ProfileIconKind, phase: TabAnimationPhase) ->
        (entry: TabEntry)
        ensures
            entry == (TabEntry {
                id,
                live: true,
                title,
                profile_icon,
                phase,
                reorder_animation: None,
                layout_animation: None,
            }),
    {
        TabEntry {
            id,
            live: true,
            title,
            profile_icon,
            phase,
            reorder_animation: None,
            layout_animation: None,
        }
    }
}

/// The time since `start`, none if that is still to come.
pub open spec fn elapsed(start: u64, now: u64) -> int {
    if now < start {
        0
    } else {
        now - start
    }
}

fn time_since(start: u64, now: u64) -> (time: u64)
    ensures
        time == elapsed(start, now),
{
    if now < start {
        0
    } else {
        now - start
    }
}

/// The identities of the first `n` tabs but for those that are closing.
pub open spec fn open_ids(tabs: Seq<TabEntry>, n: int) -> Seq<TabId>
    decreases n,
{
    if n <= 0 {
        Seq::empty()
    } else if tabs[n - 1].phase is Closing {
        open_ids(tabs, n - 1)
    } else {
        open_ids(tabs, n - 1).push(tabs[n - 1].id)
    }
}

/// The identities of all tabs.
pub open spec fn all_ids(tabs: Seq<TabEntry>) -> Seq<TabId> {
    tabs.map_values(|e: TabEntry| e.id)
}

/// Whether there is a tab.
pub open spec fn has_tab(tabs: Seq<TabEntry>, id: TabId) -> bool {
    exists|i: int| 0 <= i < tabs.len() && (#[trigger] tabs[i]).id == id
}

/// No two tabs have one identity.
pub open spec fn ids_differ(tabs: Seq<TabEntry>) -> bool {
    forall|i: int, j: int|
        #![trigger tabs[i], tabs[j]]
        0 <= i < j < tabs.len() ==> tabs[i].id != tabs[j].id
}

/// Whether a tab is there and not closing.
pub open spec fn selectable(tabs: Seq<TabEntry>, id: TabId) -> bool {
    exists|i: int|
        0 <= i < tabs.len() && (#[trigger] tabs[i]).id == id && !(tabs[i].phase is Closing)
}

/// What a workspace holds.
#[verifier::ext_equal]
pub struct WorkspaceModel {
    pub tabs: Seq<TabEntry>,
    pub active_tab: TabId,
    pub scroll_animation: Option<TabScrollAnimation>,
    pub scroll_active_tab_into_view: bool,
    pub scrollable: bool,
    pub dragging: Option<TabDragState>,
    pub hovered_tab: Option<TabId>,
}

impl WorkspaceModel {
    /// Identities are distinct and the active tab can be selected.
    pub open spec fn wf(self) -> bool {
        &&& ids_differ(self.tabs)
        &&& selectable(self.tabs, self.active_tab)
    }

    /// The tabs that can be selected, in order.
    pub open spec fn open(self) -> Seq<TabId> {
        open_ids(self.tabs, self.tabs.len() as int)
    }

    /// Another tab becomes active.
    pub open spec fn activated(self, id: TabId) -> WorkspaceModel {
        if self.active_tab == id {
            self
        } else {
            WorkspaceModel { active_tab: id, scroll_active_tab_into_view: true, ..self }
        }
    }
}

/// An entry's place in the list, or the number of entries.
pub open spec fn entry_place(tabs: Seq<TabEntry>, id: TabId, i: int) -> int
    decreases tabs.len() - i,
{
    if i < 0 || i >= tabs.len() {
        tabs.len() as int
    } else if tabs[i].id == id {
        i
    } else {
        entry_place(tabs, id, i + 1)
    }
}

pub(crate) proof fn lemma_entry_place(tabs: Seq<TabEntry>, id: TabId, i: int)
    requires
        0 <= i <= tabs.len(),
    ensures
        i <= entry_place(tabs, id, i) <= tabs.len(),
        entry_place(tabs, id, i) < tabs.len() ==> tabs[entry_place(tabs, id, i)].id == id,
        forall|j: int|
            i <= j < entry_place(tabs, id, i) ==> (#[trigger] tabs[j]).id != id,
    decreases tabs.len() - i,
{
    if i < tabs.len() && tabs[i].id != id {
        lemma_entry_place(tabs, id, i + 1);
    }
}

/// The place of a tab among those that can be selected.
pub open spec fn place_in(ids: Seq<TabId>, id: TabId) -> Option<int> {
    let at = crate::app::tab_strip::place_of_tab(ids, id, 0);
    if at < ids.len() {
        Some(at)
    } else {
        None
    }
}

pub(crate) proof fn lemma_place_in(ids: Seq<TabId>, id: TabId, i: int)
    requires
        0 <= i <= ids.len(),
    ensures
        i <= crate::app::tab_strip::place_of_tab(ids, id, i) <= ids.len(),
        crate::app::tab_strip::place_of_tab(ids, id, i) < ids.len()
            ==> ids[crate::app::tab_strip::place_of_tab(ids, id, i)] == id,
        forall|j: int|
            i <= j < crate::app::tab_strip::place_of_tab(ids, id, i) ==> #[trigger] ids[j] != id,
    decreases ids.len() - i,
{
    if i < ids.len() && ids[i] != id {
        lemma_place_in(ids, id, i + 1);
    }
}

proof fn lemma_open_ids_bound(tabs: Seq<TabEntry>, n: int)
    requires
        0 <= n <= tabs.len(),
    ensures
        open_ids(tabs, n).len() <= n,
    decreases n,
{
    if n > 0 {
        lemma_open_ids_bound(tabs, n - 1);
    }
}

/// A tab is among the open ones exactly if it can be selected.
pub(crate) proof fn lemma_open_ids_contain(tabs: Seq<TabEntry>, n: int, id: TabId)
    requires
        0 <= n <= tabs.len(),
    ensures
        open_ids(tabs, n).contains(id) <==> exists|i: int|
            0 <= i < n && (#[trigger] tabs[i]).id == id && !(tabs[i].phase is Closing),
    decreases n,
{
    if n > 0 {
        lemma_open_ids_contain(tabs, n - 1, id);
        let before = open_ids(tabs, n - 1);
        if !(tabs[n - 1].phase is Closing) {
            let now = before.push(tabs[n - 1].id);
            assert(now.last() == tabs[n - 1].id);
            if before.contains(id) {
                let k = choose|k: int| 0 <= k < before.len() && before[k] == id;
                assert(now[k] == id);
            }
            if now.contains(id) && tabs[n - 1].id != id {
                let k = choose|k: int| 0 <= k < now.len() && now[k] == id;
                assert(before[k] == id);
            }
        }
    }
}

/// Where a sequence contains a value, its first place is found.
pub(crate) proof fn lemma_contains_has_place(ids: Seq<TabId>, id: TabId)
    ensures
        place_in(ids, id) is Some <==> ids.contains(id),
        place_in(ids, id) matches Some(at) ==> 0 <= at < ids.len() && ids[at] == id,
{
    lemma_place_in(ids, id, 0);
}

/// What activating a tab came to.
#[derive(Clone, Copy, Debug, PartialEq, Eq, Structural)]
pub enum Activation {
    /// The tab cannot be selected.
    Ignored,
    /// The tab was active already and gets the focus.
    Same,
    /// The tab became active: its output counts as read, and it gets the focus.
    Changed,
}

/// What closing a tab came to.
#[derive(Clone, Copy, Debug, PartialEq, Eq, Structural)]
pub enum Closure {
    /// There is no such tab, or it is closing already.
    Ignored,
    /// It was the last one: the window goes.
    WindowCloses,
    /// The tab closes. The active tab gets the focus; if it became active by
    /// this, its output counts as read.
    TabCloses { activated: bool },
}

/// The tab that becomes active when the active one, at place `at` of the open
/// ones, closes: the next one, or the one before if it was the last.
pub open spec fn neighbour(open: Seq<TabId>, at: int) -> TabId {
    if at + 1 < open.len() {
        open[at + 1]
    } else {
        open[at - 1]
    }
}

/// A step of the tabs' animations.
#[derive(Debug)]
pub struct AnimationStep {
    /// Whether another frame is needed.
    pub needs_frame: bool,
    /// The tabs that have closed.
    pub closed: Vec<TabId>,
}

/// An entry once its animations that are over have ended.
pub open spec fn advanced(e: TabEntry, now: u64) -> TabEntry {
    TabEntry {
        phase: match e.phase {
            TabAnimationPhase::Opening { start, duration } => if elapsed(start, now) >= duration {
                TabAnimationPhase::Open
            } else {
                e.phase
            },
            _ => e.phase,
        },
        reorder_animation: match e.reorder_animation {
            Some(animation) => if elapsed(animation.start, now) >= TAB_REORDER_DURATION {
                None
            } else {
                Some(animation)
            },
            None => None,
        },
        layout_animation: match e.layout_animation {
            Some(animation) => if elapsed(animation.start, now) >= animation.duration {
                None
            } else {
                Some(animation)
            },
            None => None,
        },
        ..e
    }
}

/// Whether an entry has an animation that goes on.
pub open spec fn animates(e: TabEntry, now: u64) -> bool {
    ||| e.phase matches TabAnimationPhase::Opening { start, duration } && elapsed(start, now)
        < duration
    ||| e.phase matches TabAnimationPhase::Closing { start, duration } && elapsed(start, now)
        < duration
    ||| e.reorder_animation matches Some(animation) && elapsed(animation.start, now)
        < TAB_REORDER_DURATION
    ||| e.layout_animation matches Some(animation) && elapsed(animation.start, now)
        < animation.duration
}

/// Whether an entry has closed.
pub open spec fn has_closed(e: TabEntry, now: u64) -> bool {
    e.phase matches TabAnimationPhase::Closing { start, duration } && elapsed(start, now)
        >= duration
}

/// The entries among the first `n` that have closed.
pub open spec fn closed_ids(tabs: Seq<TabEntry>, now: u64, n: int) -> Seq<TabId>
    decreases n,
{
    if n <= 0 {
        Seq::empty()
    } else if has_closed(tabs[n - 1], now) {
        closed_ids(tabs, now, n - 1).push(tabs[n - 1].id)
    } else {
        closed_ids(tabs, now, n - 1)
    }
}

/// The first `n` entries without those that `gone` names.
pub open spec fn without(tabs: Seq<TabEntry>, gone: Seq<TabId>, n: int) -> Seq<TabEntry>
    decreases n,
{
    if n <= 0 {
        Seq::empty()
    } else if gone.contains(tabs[n - 1].id) {
        without(tabs, gone, n - 1)
    } else {
        without(tabs, gone, n - 1).push(tabs[n - 1])
    }
}

/// A tab's change of width. The app says which widths are as good as equal.
#[derive(Clone, Copy, Debug)]
pub struct WidthChange {
    pub from_width: u32,
    pub to_width: u32,
    /// Whether the two widths are as good as equal.
    pub same: bool,
    /// Whether the width that the tab is on its way to is as good as
    /// `to_width`.
    pub under_way: bool,
}

/// The layout animation of an entry after a change of width.
pub open spec fn layout_after(
    e: TabEntry,
    change: WidthChange,
    duration: u64,
    now: u64,
) -> Option<TabLayoutAnimation> {
    if change.same {
        None
    } else if e.layout_animation is Some && change.under_way {
        e.layout_animation
    } else {
        Some(
            TabLayoutAnimation {
                start: now,
                duration,
                from_width: change.from_width,
                to_width: change.to_width,
            },
        )
    }
}

/// How long a new tab takes to open: longer if others make room for it.
pub open spec fn opening_duration(
    tabs: Seq<TabEntry>,
    changes: Seq<WidthChange>,
    tab_id: TabId,
) -> u64 {
    if exists|i: int|
        0 <= i < tabs.len() && (#[trigger] tabs[i]).id != tab_id && !changes[i].same {
        TAB_OPEN_DURATION
    } else {
        TAB_OPEN_FAST_DURATION
    }
}

/// How far a tab is from its new place. The app says what is as good as none.
#[derive(Clone, Copy, Debug)]
pub struct ReorderOffset {
    pub offset_x: u32,
    pub zero: bool,
}

/// The animation over an offset.
pub open spec fn reorder_over(offset: ReorderOffset, now: u64) -> Option<TabReorderAnimation> {
    if offset.zero {
        None
    } else {
        Some(TabReorderAnimation { start: now, offset_x: offset.offset_x })
    }
}

/// Where a tab is drawn over the others.
#[derive(Clone, Copy, Debug, PartialEq, Eq, Structural)]
pub enum TabOverlay {
    Absent,
    /// It is dragged, to this position.
    Dragged(u32),
    /// It returns to this position.
    Returning(u32),
}

/// How a tab is drawn.
#[derive(Clone, Copy, Debug, PartialEq, Eq, Structural)]
pub struct TabLook {
    pub tab_id: TabId,
    pub active: bool,
    pub hovered: bool,
    pub closing: bool,
    pub draggable: bool,
    pub dragged: bool,
    pub separator: bool,
    pub overlay: TabOverlay,
}

/// What drawing the strip scrolls to.
#[derive(Clone, Copy, Debug, PartialEq, Eq, Structural)]
pub struct ScrollPlan {
    pub target: TabScrollTarget,
    pub needs_frame: bool,
}

/// A step of scrolling while a tab is dragged.
#[derive(Clone, Copy, Debug, PartialEq, Eq, Structural)]
pub struct AutoscrollStep {
    pub tab_id: TabId,
    pub pointer_x: u32,
    pub elapsed: u64,
}

/// What to do when the window is asked to close.
#[derive(Clone, Copy, Debug, PartialEq, Eq, Structural)]
pub enum WindowClose {
    Allowed,
    /// Ask first: so many tabs are open.
    Ask { tabs: usize },
}

/// The list with the element at `from` moved to `to`.
pub open spec fn moved<T>(list: Seq<T>, from: int, to: int) -> Seq<T> {
    if 0 <= from < list.len() && 0 <= to < list.len() {
        list.remove(from).insert(to, list[from])
    } else {
        list
    }
}

/// Moves an element to another place. Nothing moves if there is no such place.
pub fn move_tab_entries_to_index<T>(tabs: &mut Vec<T>, from: usize, to: usize)
    ensures
        final(tabs)@ == moved(old(tabs)@, from as int, to as int),
{
    if from >= tabs.len() || to >= tabs.len() || from == to {
        proof {
            if from == to && from < tabs.len() {
                let list = tabs@;
                assert(list.remove(from as int).insert(from as int, list[from as int]) =~= list);
            }
        }
        return;
    }
    let tab = tabs.remove(from);
    tabs.insert(to, tab);
}

/// Moving an element keeps all of them.
pub proof fn law_move_keeps_elements<T>(list: Seq<T>, from: int, to: int)
    ensures
        moved(list, from, to).to_multiset() == list.to_multiset(),
        moved(list, from, to).len() == list.len(),
{
    if 0 <= from < list.len() && 0 <= to < list.len() {
        broadcast use vstd::seq_lib::group_to_multiset_ensures;

        let rest = list.remove(from);
        assert(list =~= rest.insert(from, list[from]));
        vstd::seq_lib::to_multiset_insert(rest, to, list[from]);
        vstd::seq_lib::to_multiset_insert(rest, from, list[from]);
    }
}

/// Moving an element back undoes the move.
pub proof fn law_move_back<T>(list: Seq<T>, from: int, to: int)
    requires
        0 <= from < list.len(),
        0 <= to < list.len(),
    ensures
        moved(moved(list, from, to), to, from) == list,
{
    let there = moved(list, from, to);
    assert(there[to] == list[from]);
    assert(there.remove(to) =~= list.remove(from));
    assert(moved(there, to, from) =~= list);
}

/// The workspace of a window.
pub struct Workspace {
    tabs: Vec<TabEntry>,
    active_tab: TabId,
    tab_scroll_animation: Option<TabScrollAnimation>,
    scroll_active_tab_into_view: bool,
    tab_strip_is_scrollable: bool,
    dragging: Option<TabDragState>,
    tab_drag_layout: Option<TabDragLayout>,
    hovered_tab: Option<TabId>,
}

impl View for Workspace {
    type V = WorkspaceModel;

    closed spec fn view(&self) -> WorkspaceModel {
        WorkspaceModel {
            tabs: self.tabs@,
            active_tab: self.active_tab,
            scroll_animation: self.tab_scroll_animation,
            scroll_active_tab_into_view: self.scroll_active_tab_into_view,
            scrollable: self.tab_strip_is_scrollable,
            dragging: self.dragging,
            hovered_tab: self.hovered_tab,
        }
    }
}

impl Workspace {
    /// Where the tabs were when they were drawn last.
    pub closed spec fn last_layout(&self) -> Option<TabDragLayout> {
        self.tab_drag_layout
    }

    /// A workspace with one open tab.
    pub fn new(tab_id: TabId, title: String, profile_icon: ProfileIconKind) -> (workspace: Workspace)
        ensures
            workspace@.wf(),
            workspace@ == (WorkspaceModel {
                tabs: seq![
                    TabEntry {
                        id: tab_id,
                        live: true,
                        title,
                        profile_icon,
                        phase: TabAnimationPhase::Open,
                        reorder_animation: None,
                        layout_animation: None,
                    },
                ],
                active_tab: tab_id,
                scroll_animation: None,
                scroll_active_tab_into_view: true,
                scrollable: false,
                dragging: None,
                hovered_tab: None,
            }),
            workspace.last_layout() is None,
    {
        let mut tabs: Vec<TabEntry> = Vec::new();
        tabs.push(TabEntry::new(tab_id, title, profile_icon, TabAnimationPhase::Open));
        assert(tabs@ =~= seq![tabs@[0]]);
        let workspace = Workspace {
            tabs,
            active_tab: tab_id,
            tab_scroll_animation: None,
            scroll_active_tab_into_view: true,
            tab_strip_is_scrollable: false,
            dragging: None,
            tab_drag_layout: None,
            hovered_tab: None,
        };
        assert(workspace@.tabs[0].id == tab_id);
        workspace
    }

    /// The tabs.
    pub fn tabs(&self) -> (tabs: &Vec<TabEntry>)
        ensures
            tabs@ == self@.tabs,
    {
        &self.tabs
    }

    pub fn active_tab(&self) -> (id: TabId)
        ensures
            id == self@.active_tab,
    {
        self.active_tab
    }

    pub fn hovered_tab(&self) -> (id: Option<TabId>)
        ensures
            id == self@.hovered_tab,
    {
        self.hovered_tab
    }

    pub fn dragging(&self) -> (state: Option<TabDragState>)
        ensures
            state == self@.dragging,
    {
        self.dragging
    }

    pub fn scroll_animation(&self) -> (animation: Option<TabScrollAnimation>)
        ensures
            animation == self@.scroll_animation,
    {
        self.tab_scroll_animation
    }

    pub fn is_scrollable(&self) -> (scrollable: bool)
        ensures
            scrollable == self@.scrollable,
    {
        self.tab_strip_is_scrollable
    }

    pub fn drag_layout(&self) -> (layout: &Option<TabDragLayout>)
        ensures
            *layout == self.last_layout(),
    {
        &self.tab_drag_layout
    }

    /// The place of a tab.
    pub fn entry_index(&self, id: TabId) -> (index: Option<usize>)
        ensures
            match index {
                Some(index) => index == entry_place(self@.tabs, id, 0) && index
                    < self@.tabs.len() && self@.tabs[index as int].id == id,
                None => !has_tab(self@.tabs, id) && entry_place(self@.tabs, id, 0)
                    == self@.tabs.len(),
            },
    {
        proof {
            lemma_entry_place(self@.tabs, id, 0);
        }
        let mut i: usize = 0;
        while i < self.tabs.len()
            invariant
                i <= self.tabs@.len(),
                entry_place(self@.tabs, id, 0) == entry_place(self@.tabs, id, i as int),
                forall|j: int| 0 <= j < i ==> (#[trigger] self@.tabs[j]).id != id,
            decreases self.tabs@.len() - i,
        {
            if self.tabs[i].id == id {
                return Some(i);
            }
            i += 1;
        }
        None
    }

    /// A tab.
    pub fn entry(&self, id: TabId) -> (entry: Option<&TabEntry>)
        ensures
            match entry {
                Some(entry) => {
                    &&& entry_place(self@.tabs, id, 0) < self@.tabs.len()
                    &&& *entry == self@.tabs[entry_place(self@.tabs, id, 0)]
                    &&& entry.id == id
                },
                None => !has_tab(self@.tabs, id),
            },
    {
        match self.entry_index(id) {
            Some(i) => Some(&self.tabs[i]),
            None => None,
        }
    }

    /// The identities of all tabs.
    pub fn tab_ids(&self) -> (ids: Vec<TabId>)
        ensures
            ids@ == all_ids(self@.tabs),
    {
        let mut ids: Vec<TabId> = Vec::new();
        let mut i: usize = 0;
        while i < self.tabs.len()
            invariant
                i <= self.tabs@.len(),
                ids@ == all_ids(self@.tabs).take(i as int),
            decreases self.tabs@.len() - i,
        {
            ids.push(self.tabs[i].id);
            i += 1;
            assert(ids@ =~= all_ids(self@.tabs).take(i as int));
        }
        assert(ids@ =~= all_ids(self@.tabs));
        ids
    }

    fn open_tabs(&self) -> (ids: Vec<TabId>)
        ensures
            ids@ == self@.open(),
            ids@.len() <= self@.tabs.len(),
    {
        let mut ids: Vec<TabId> = Vec::new();
        let mut i: usize = 0;
        while i < self.tabs.len()
            invariant
                i <= self.tabs@.len(),
                ids@ == open_ids(self@.tabs, i as int),
            decreases self.tabs@.len() - i,
        {
            let closing: bool = matches!(self.tabs[i].phase, TabAnimationPhase::Closing { .. });
            if !closing {
                ids.push(self.tabs[i].id);
            }
            i += 1;
        }
        proof {
            lemma_open_ids_bound(self@.tabs, self@.tabs.len() as int);
        }
        ids
    }

    /// How many tabs are not closing.
    pub fn open_tab_count(&self) -> (count: usize)
        ensures
            count == self@.open().len(),
    {
        self.open_tabs().len()
    }

    /// Whether a tab is there and not closing.
    pub fn tab_is_selectable(&self, tab_id: TabId) -> (yes: bool)
        requires
            self@.wf(),
        ensures
            yes == selectable(self@.tabs, tab_id),
    {
        match self.entry_index(tab_id) {
            Some(i) => {
                let closing: bool = matches!(self.tabs[i].phase, TabAnimationPhase::Closing { .. });
                proof {
                    let tabs = self@.tabs;
                    if closing && selectable(tabs, tab_id) {
                        let k = choose|k: int|
                            0 <= k < tabs.len() && (#[trigger] tabs[k]).id == tab_id && !(
                            tabs[k].phase is Closing);
                        assert(tabs[k].id == tabs[i as int].id);
                    }
                }
                !closing
            },
            None => false,
        }
    }

    /// The tab at a place among those that can be selected.
    pub fn selectable_tab_id_at(&self, index: usize) -> (id: Option<TabId>)
        ensures
            id == if index < self@.open().len() {
                Some(self@.open()[index as int])
            } else {
                None
            },
    {
        let ids = self.open_tabs();
        if index < ids.len() {
            Some(ids[index])
        } else {
            None
        }
    }

    /// The place of a tab among those that can be selected.
    pub fn selectable_index(&self, tab_id: TabId) -> (index: Option<usize>)
        ensures
            match index {
                Some(index) => place_in(self@.open(), tab_id) == Some(index as int),
                None => place_in(self@.open(), tab_id) is None,
            },
    {
        let ids = self.open_tabs();
        crate::app::tab_strip::tab_place(&ids, tab_id)
    }

    /// A tab's title changed. Nothing happens if it is gone.
    pub fn set_title(&mut self, tab_id: TabId, title: String)
        ensures
            final(self).last_layout() == old(self).last_layout(),
            final(self)@ == (WorkspaceModel {
                tabs: if has_tab(old(self)@.tabs, tab_id) {
                    let i = entry_place(old(self)@.tabs, tab_id, 0);
                    old(self)@.tabs.update(i, TabEntry { title, ..old(self)@.tabs[i] })
                } else {
                    old(self)@.tabs
                },
                ..old(self)@
            }),
    {
        match self.entry_index(tab_id) {
            Some(i) => {
                assert(self@.tabs[i as int].id == tab_id);
                self.tabs[i].title = title;
            },
            None => {},
        }
    }

    /// Adds a tab at the end and makes it active.
    pub fn new_tab(&mut self, tab_id: TabId, title: String, profile_icon: ProfileIconKind, now: u64)
        requires
            old(self)@.wf(),
            !has_tab(old(self)@.tabs, tab_id),
        ensures
            final(self)@.wf(),
            final(self).last_layout() == old(self).last_layout(),
            final(self)@ == (WorkspaceModel {
                tabs: old(self)@.tabs.push(
                    TabEntry {
                        id: tab_id,
                        live: true,
                        title,
                        profile_icon,
                        phase: TabAnimationPhase::Opening {
                            start: now,
                            duration: TAB_OPEN_DURATION,
                        },
                        reorder_animation: None,
                        layout_animation: None,
                    },
                ),
                active_tab: tab_id,
                scroll_active_tab_into_view: true,
                ..old(self)@
            }),
    {
        let phase = TabAnimationPhase::Opening { start: now, duration: TAB_OPEN_DURATION };
        self.tabs.push(TabEntry::new(tab_id, title, profile_icon, phase));
        self.active_tab = tab_id;
        self.scroll_active_tab_into_view = true;
        assert(self@.tabs.last().id == tab_id);
        assert forall|i: int, j: int|
            #![trigger self@.tabs[i], self@.tabs[j]]
            0 <= i < j < self@.tabs.len() implies self@.tabs[i].id != self@.tabs[j].id by {
            let before = old(self)@.tabs;
            assert(self@.tabs[i] == before[i]);
            if j < before.len() {
                assert(self@.tabs[j] == before[j]);
            }
        }
    }

    /// Sets how long an opening tab takes.
    pub fn set_opening(&mut self, tab_id: TabId, duration: u64, now: u64)
        requires
            old(self)@.wf(),
            selectable(old(self)@.tabs, tab_id),
        ensures
            final(self)@.wf(),
            final(self).last_layout() == old(self).last_layout(),
            final(self)@ == (WorkspaceModel {
                tabs: ({
                    let i = entry_place(old(self)@.tabs, tab_id, 0);
                    old(self)@.tabs.update(
                        i,
                        TabEntry {
                            phase: TabAnimationPhase::Opening { start: now, duration },
                            ..old(self)@.tabs[i]
                        },
                    )
                }),
                ..old(self)@
            }),
    {
        match self.entry_index(tab_id) {
            Some(i) => {
                self.tabs[i].phase = TabAnimationPhase::Opening { start: now, duration };
                proof {
                    lemma_same_phases_keep_wf(old(self)@, self@);
                }
            },
            None => {},
        }
    }

    /// Makes a tab active.
    pub fn activate_tab(&mut self, tab_id: TabId) -> (activation: Activation)
        requires
            old(self)@.wf(),
        ensures
            final(self)@.wf(),
            final(self).last_layout() == old(self).last_layout(),
            final(self)@ == if selectable(old(self)@.tabs, tab_id) {
                old(self)@.activated(tab_id)
            } else {
                old(self)@
            },
            activation == if !selectable(old(self)@.tabs, tab_id) {
                Activation::Ignored
            } else if old(self)@.active_tab == tab_id {
                Activation::Same
            } else {
                Activation::Changed
            },
    {
        if !self.tab_is_selectable(tab_id) {
            return Activation::Ignored;
        }
        if self.active_tab == tab_id {
            return Activation::Same;
        }
        self.active_tab = tab_id;
        self.scroll_active_tab_into_view = true;
        Activation::Changed
    }

    /// Makes the tab at a place active.
    pub fn select_tab_index(&mut self, index: usize) -> (activation: Activation)
        requires
            old(self)@.wf(),
        ensures
            final(self)@.wf(),
            final(self).last_layout() == old(self).last_layout(),
            final(self)@ == if index < old(self)@.open().len() {
                old(self)@.activated(old(self)@.open()[index as int])
            } else {
                old(self)@
            },
            activation == if index >= old(self)@.open().len() {
                Activation::Ignored
            } else if old(self)@.active_tab == old(self)@.open()[index as int] {
                Activation::Same
            } else {
                Activation::Changed
            },
    {
        match self.selectable_tab_id_at(index) {
            Some(id) => {
                proof {
                    let open = self@.open();
                    assert(open.contains(id)) by {
                        assert(open[index as int] == id);
                    }
                    lemma_open_ids_contain(self@.tabs, self@.tabs.len() as int, id);
                }
                self.activate_tab(id)
            },
            None => Activation::Ignored,
        }
    }

    /// Makes the next tab active, the first after the last.
    pub fn select_next_tab(&mut self) -> (activation: Activation)
        requires
            old(self)@.wf(),
        ensures
            final(self)@.wf(),
            final(self).last_layout() == old(self).last_layout(),
            final(self)@ == old(self)@.activated(next_of(old(self)@.open(), old(self)@.active_tab)),
            activation is Same || activation is Changed,
            activation is Same == (final(self)@.active_tab == old(self)@.active_tab),
    {
        let current: usize = self.active_place();
        let len: usize = self.open_tab_count();
        let next: usize = if current + 1 == len {
            0
        } else {
            current + 1
        };
        self.select_tab_index(next)
    }

    /// Makes the tab before active, the last before the first.
    pub fn select_previous_tab(&mut self) -> (activation: Activation)
        requires
            old(self)@.wf(),
        ensures
            final(self)@.wf(),
            final(self).last_layout() == old(self).last_layout(),
            final(self)@ == old(self)@.activated(
                previous_of(old(self)@.open(), old(self)@.active_tab),
            ),
            activation is Same || activation is Changed,
            activation is Same == (final(self)@.active_tab == old(self)@.active_tab),
    {
        let current: usize = self.active_place();
        let len: usize = self.open_tab_count();
        let previous: usize = if current == 0 {
            len - 1
        } else {
            current - 1
        };
        self.select_tab_index(previous)
    }

    fn active_place(&self) -> (place: usize)
        requires
            self@.wf(),
        ensures
            place_in(self@.open(), self@.active_tab) == Some(place as int),
            place < self@.open().len() <= self.tabs.len(),
            self@.open()[place as int] == self@.active_tab,
    {
        proof {
            lemma_open_ids_contain(self@.tabs, self@.tabs.len() as int, self@.active_tab);
            lemma_contains_has_place(self@.open(), self@.active_tab);
            lemma_open_ids_bound(self@.tabs, self@.tabs.len() as int);
        }
        self.selectable_index(self.active_tab).unwrap()
    }

    /// Closes a tab. The last one takes the window with it. If the active tab
    /// closes, its neighbour becomes active.
    pub fn close_tab(&mut self, tab_id: TabId, now: u64) -> (closure: Closure)
        requires
            old(self)@.wf(),
        ensures
            final(self)@.wf(),
            final(self).last_layout() == old(self).last_layout(),
            closure is Ignored == !selectable(old(self)@.tabs, tab_id),
            closure is WindowCloses == (selectable(old(self)@.tabs, tab_id) && old(self)@.open().len()
                == 1),
            closure is Ignored || closure is WindowCloses ==> final(self)@ == old(self)@,
            closure matches Closure::TabCloses { activated } ==> {
                let i = entry_place(old(self)@.tabs, tab_id, 0);
                let was_active = old(self)@.active_tab == tab_id;
                &&& activated == was_active
                &&& final(self)@ == (WorkspaceModel {
                    tabs: old(self)@.tabs.update(
                        i,
                        TabEntry {
                            live: false,
                            phase: TabAnimationPhase::Closing {
                                start: now,
                                duration: TAB_CLOSE_DURATION,
                            },
                            ..old(self)@.tabs[i]
                        },
                    ),
                    active_tab: if was_active {
                        neighbour(
                            old(self)@.open(),
                            place_in(old(self)@.open(), tab_id)->0,
                        )
                    } else {
                        old(self)@.active_tab
                    },
                    scroll_active_tab_into_view: was_active
                        || old(self)@.scroll_active_tab_into_view,
                    dragging: if drags(old(self)@.dragging, tab_id) {
                        None
                    } else {
                        old(self)@.dragging
                    },
                    ..old(self)@
                })
            },
    {
        if !self.tab_is_selectable(tab_id) {
            return Closure::Ignored;
        }
        let ghost before = self@;
        let ghost n = self@.tabs.len() as int;
        proof {
            lemma_open_ids_contain(before.tabs, n, tab_id);
            lemma_contains_has_place(before.open(), tab_id);
        }
        let at: usize = self.selectable_index(tab_id).unwrap();
        let count: usize = self.open_tab_count();
        if count == 1 {
            return Closure::WindowCloses;
        }
        let was_active: bool = self.active_tab == tab_id;
        let i: usize = self.entry_index(tab_id).unwrap();
        self.tabs[i].live = false;
        self.tabs[i].phase = TabAnimationPhase::Closing {
            start: now,
            duration: TAB_CLOSE_DURATION,
        };
        let ghost after = self@;
        proof {
            assert(!(before.tabs[i as int].phase is Closing)) by {
                let k = choose|k: int|
                    0 <= k < n && (#[trigger] before.tabs[k]).id == tab_id && !(
                    before.tabs[k].phase is Closing);
                assert(before.tabs[k].id == before.tabs[i as int].id);
            }
            lemma_open_distinct(before.tabs, n);
            lemma_open_ids_without(before.tabs, after.tabs, i as int, n, at as int);
        }
        let drops: bool = match self.dragging {
            Some(state) => state.tab_id == tab_id,
            None => false,
        };
        if drops {
            self.dragging = None;
        }
        if was_active {
            let next: usize = if at + 1 < count {
                at
            } else {
                at - 1
            };
            match self.selectable_tab_id_at(next) {
                Some(id) => {
                    self.active_tab = id;
                    self.scroll_active_tab_into_view = true;
                    proof {
                        assert(after.open()[next as int] == id);
                        assert(after.open().contains(id));
                        lemma_open_ids_contain(after.tabs, n, id);
                    }
                },
                None => {},
            }
        } else {
            proof {
                let k = choose|k: int|
                    0 <= k < n && (#[trigger] before.tabs[k]).id == before.active_tab && !(
                    before.tabs[k].phase is Closing);
                assert(k != i);
                assert(after.tabs[k] == before.tabs[k]);
            }
        }
        assert(ids_differ(self@.tabs)) by {
            assert forall|a: int, b: int|
                #![trigger self@.tabs[a], self@.tabs[b]]
                0 <= a < b < self@.tabs.len() implies self@.tabs[a].id != self@.tabs[b].id by {
                assert(self@.tabs[a].id == before.tabs[a].id);
                assert(self@.tabs[b].id == before.tabs[b].id);
            }
        }
        Closure::TabCloses { activated: was_active }
    }

    /// The pointer came over a tab or left it. The result says whether that
    /// changed anything.
    pub fn set_hovered_tab(&mut self, tab_id: TabId, is_hovered: bool) -> (changed: bool)
        ensures
            final(self).last_layout() == old(self).last_layout(),
            final(self)@ == (WorkspaceModel {
                hovered_tab: if is_hovered {
                    Some(tab_id)
                } else if old(self)@.hovered_tab == Some(tab_id) {
                    None
                } else {
                    old(self)@.hovered_tab
                },
                ..old(self)@
            }),
            changed == (final(self)@.hovered_tab != old(self)@.hovered_tab),
    {
        let over_it: bool = match self.hovered_tab {
            Some(id) => id == tab_id,
            None => false,
        };
        if is_hovered {
            self.hovered_tab = Some(tab_id);
            !over_it
        } else if over_it {
            self.hovered_tab = None;
            true
        } else {
            false
        }
    }

    /// Ends the animations that are over. The tabs that have closed are still
    /// there; see [`Workspace::remove_closed_tabs`].
    pub fn advance_tab_animations(&mut self, now: u64) -> (step: AnimationStep)
        requires
            old(self)@.wf(),
        ensures
            final(self)@.wf(),
            final(self).last_layout() == old(self).last_layout(),
            final(self)@ == (WorkspaceModel {
                tabs: old(self)@.tabs.map_values(|e: TabEntry| advanced(e, now)),
                ..old(self)@
            }),
            step.needs_frame == exists|i: int|
                0 <= i < old(self)@.tabs.len() && animates(#[trigger] old(self)@.tabs[i], now),
            step.closed@ == closed_ids(old(self)@.tabs, now, old(self)@.tabs.len() as int),
    {
        let ghost before = self@;
        let ghost done = before.tabs.map_values(|e: TabEntry| advanced(e, now));
        let mut needs_frame: bool = false;
        let mut closed: Vec<TabId> = Vec::new();
        let mut i: usize = 0;
        let n: usize = self.tabs.len();
        while i < n
            invariant
                i <= n,
                n == before.tabs.len(),
                self.tabs@.len() == n,
                done == before.tabs.map_values(|e: TabEntry| advanced(e, now)),
                self@ == (WorkspaceModel { tabs: self.tabs@, ..before }),
                self.last_layout() == old(self).last_layout(),
                forall|j: int| 0 <= j < i ==> #[trigger] self.tabs@[j] == done[j],
                forall|j: int| i <= j < n ==> #[trigger] self.tabs@[j] == before.tabs[j],
                needs_frame == exists|j: int|
                    0 <= j < i && animates(#[trigger] before.tabs[j], now),
                closed@ == closed_ids(before.tabs, now, i as int),
            decreases n - i,
        {
            let ghost e = before.tabs[i as int];
            let mut animated: bool = false;
            match self.tabs[i].phase {
                TabAnimationPhase::Opening { start, duration } => {
                    if time_since(start, now) >= duration {
                        self.tabs[i].phase = TabAnimationPhase::Open;
                    } else {
                        animated = true;
                    }
                },
                TabAnimationPhase::Open => {},
                TabAnimationPhase::Closing { start, duration } => {
                    if time_since(start, now) >= duration {
                        closed.push(self.tabs[i].id);
                    } else {
                        animated = true;
                    }
                },
            }
            match self.tabs[i].reorder_animation {
                Some(animation) => {
                    if time_since(animation.start, now) >= TAB_REORDER_DURATION {
                        self.tabs[i].reorder_animation = None;
                    } else {
                        animated = true;
                    }
                },
                None => {},
            }
            match self.tabs[i].layout_animation {
                Some(animation) => {
                    if time_since(animation.start, now) >= animation.duration {
                        self.tabs[i].layout_animation = None;
                    } else {
                        animated = true;
                    }
                },
                None => {},
            }
            assert(animated == animates(e, now));
            assert(self.tabs@[i as int] == advanced(e, now));
            if animated {
                assert(animates(before.tabs[i as int], now));
                needs_frame = true;
            }
            i += 1;
        }
        assert(self.tabs@ =~= done);
        proof {
            lemma_same_phases_keep_wf(before, self@);
        }
        AnimationStep { needs_frame, closed }
    }

    /// Takes tabs out that have closed, and with them what was dragged or
    /// hovered.
    pub fn remove_closed_tabs(&mut self, closed: &Vec<TabId>)
        requires
            old(self)@.wf(),
            !closed@.contains(old(self)@.active_tab),
        ensures
            final(self)@.wf(),
            final(self).last_layout() == old(self).last_layout(),
            ({
                let tabs = without(old(self)@.tabs, closed@, old(self)@.tabs.len() as int);
                final(self)@ == (WorkspaceModel {
                    tabs,
                    dragging: match old(self)@.dragging {
                        Some(state) => if has_tab(tabs, state.tab_id) {
                            Some(state)
                        } else {
                            None
                        },
                        None => None,
                    },
                    hovered_tab: match old(self)@.hovered_tab {
                        Some(id) => if has_tab(tabs, id) {
                            Some(id)
                        } else {
                            None
                        },
                        None => None,
                    },
                    ..old(self)@
                })
            }),
    {
        let ghost before = self@;
        let ghost n = before.tabs.len() as int;
        let ghost mut seen: int = 0;
        let mut i: usize = 0;
        assert(without(before.tabs, closed@, 0) + before.tabs.skip(0) =~= before.tabs);
        while i < self.tabs.len()
            invariant
                0 <= seen <= n,
                n == before.tabs.len(),
                i == without(before.tabs, closed@, seen).len(),
                self.tabs@ == without(before.tabs, closed@, seen) + before.tabs.skip(seen),
                self@ == (WorkspaceModel { tabs: self.tabs@, ..before }),
                self.last_layout() == old(self).last_layout(),
            decreases n - seen,
        {
            let id = self.tabs[i].id;
            let ghost kept = without(before.tabs, closed@, seen);
            assert(self.tabs@[i as int] == before.tabs[seen]);
            let gone: bool = crate::app::tab_strip::tab_place(closed, id).is_some();
            proof {
                lemma_contains_has_place(closed@, id);
                seen = seen + 1;
            }
            if gone {
                let _ = self.tabs.remove(i);
                assert(self.tabs@ =~= kept + before.tabs.skip(seen));
            } else {
                assert(self.tabs@ =~= kept.push(before.tabs[seen - 1]) + before.tabs.skip(seen));
                i += 1;
            }
        }
        proof {
            assert(seen == n);
            assert(self.tabs@ =~= without(before.tabs, closed@, n));
            lemma_without_distinct(before.tabs, closed@, n);
            let k = choose|k: int|
                0 <= k < n && (#[trigger] before.tabs[k]).id == before.active_tab && !(
                before.tabs[k].phase is Closing);
            lemma_without_keeps(before.tabs, closed@, n, k);
            assert(self.tabs@.contains(before.tabs[k]));
            let m = choose|m: int| 0 <= m < self.tabs@.len() && self.tabs@[m] == before.tabs[k];
            assert(self@.tabs[m].id == before.active_tab);
        }
        let drops: bool = match self.dragging {
            Some(state) => self.entry_index(state.tab_id).is_none(),
            None => false,
        };
        if drops {
            self.dragging = None;
        }
        let leaves: bool = match self.hovered_tab {
            Some(id) => self.entry_index(id).is_none(),
            None => false,
        };
        if leaves {
            self.hovered_tab = None;
        }
    }

    /// The width of each tab: none for those that are closing.
    pub fn tab_widths_for_selectable_width(&self, tab_width: u32) -> (widths: Vec<u32>)
        ensures
            widths@ == self@.tabs.map_values(
                |e: TabEntry|
                    if e.phase is Closing {
                        0u32
                    } else {
                        tab_width
                    },
            ),
    {
        let ghost all = self@.tabs.map_values(
            |e: TabEntry|
                if e.phase is Closing {
                    0u32
                } else {
                    tab_width
                },
        );
        let mut widths: Vec<u32> = Vec::new();
        let mut i: usize = 0;
        while i < self.tabs.len()
            invariant
                i <= self.tabs@.len(),
                all == self@.tabs.map_values(
                    |e: TabEntry|
                        if e.phase is Closing {
                            0u32
                        } else {
                            tab_width
                        },
                ),
                widths@ == all.take(i as int),
            decreases self.tabs@.len() - i,
        {
            let closing: bool = matches!(self.tabs[i].phase, TabAnimationPhase::Closing { .. });
            let width: u32 = if closing {
                0
            } else {
                tab_width
            };
            widths.push(width);
            i += 1;
            assert(widths@ =~= all.take(i as int));
        }
        assert(widths@ =~= all);
        widths
    }

    /// Whether any tab but one changes its width; `changes` says so of each
    /// tab.
    pub fn tab_widths_change(&self, changes: &Vec<bool>, excluded: TabId) -> (any: bool)
        requires
            changes@.len() == self@.tabs.len(),
        ensures
            any == exists|i: int|
                0 <= i < self@.tabs.len() && (#[trigger] self@.tabs[i]).id != excluded
                    && changes@[i],
    {
        let mut i: usize = 0;
        while i < self.tabs.len()
            invariant
                i <= self.tabs@.len(),
                changes@.len() == self@.tabs.len(),
                forall|j: int|
                    0 <= j < i ==> (#[trigger] self@.tabs[j]).id == excluded || !changes@[j],
            decreases self.tabs@.len() - i,
        {
            if self.tabs[i].id != excluded && changes[i] {
                assert(self@.tabs[i as int].id != excluded);
                return true;
            }
            i += 1;
        }
        false
    }

    /// Starts the animations of tabs that change their width, one change for
    /// each tab.
    pub fn start_tab_layout_animation(
        &mut self,
        changes: &Vec<WidthChange>,
        duration: u64,
        now: u64,
    )
        requires
            old(self)@.wf(),
            changes@.len() == old(self)@.tabs.len(),
        ensures
            final(self)@.wf(),
            final(self).last_layout() == old(self).last_layout(),
            final(self)@ == (WorkspaceModel {
                tabs: Seq::new(
                    old(self)@.tabs.len(),
                    |i: int|
                        TabEntry {
                            layout_animation: layout_after(
                                old(self)@.tabs[i],
                                changes@[i],
                                duration,
                                now,
                            ),
                            ..old(self)@.tabs[i]
                        },
                ),
                ..old(self)@
            }),
    {
        let ghost before = self@;
        let n: usize = self.tabs.len();
        let mut i: usize = 0;
        while i < n
            invariant
                i <= n,
                n == before.tabs.len(),
                self.tabs@.len() == n,
                changes@.len() == n,
                self@ == (WorkspaceModel { tabs: self.tabs@, ..before }),
                self.last_layout() == old(self).last_layout(),
                forall|j: int|
                    0 <= j < i ==> #[trigger] self.tabs@[j] == (TabEntry {
                        layout_animation: layout_after(before.tabs[j], changes@[j], duration, now),
                        ..before.tabs[j]
                    }),
                forall|j: int| i <= j < n ==> #[trigger] self.tabs@[j] == before.tabs[j],
            decreases n - i,
        {
            let change = changes[i];
            let on_its_way: bool = self.tabs[i].layout_animation.is_some();
            if change.same {
                self.tabs[i].layout_animation = None;
            } else if !(on_its_way && change.under_way) {
                self.tabs[i].layout_animation = Some(
                    TabLayoutAnimation {
                        start: now,
                        duration,
                        from_width: change.from_width,
                        to_width: change.to_width,
                    },
                );
            }
            i += 1;
        }
        proof {
            lemma_same_phases_keep_wf(before, self@);
        }
    }

    /// Lets a new tab open, and starts the animations of tabs that change their
    /// width, one change for each tab. All take the same time.
    pub fn settle_new_tab(&mut self, tab_id: TabId, changes: &Vec<WidthChange>, now: u64)
        requires
            old(self)@.wf(),
            selectable(old(self)@.tabs, tab_id),
            changes@.len() == old(self)@.tabs.len(),
        ensures
            final(self)@.wf(),
            final(self).last_layout() == old(self).last_layout(),
            ({
                let duration = opening_duration(old(self)@.tabs, changes@, tab_id);
                final(self)@ == (WorkspaceModel {
                    tabs: Seq::new(
                        old(self)@.tabs.len(),
                        |i: int|
                            TabEntry {
                                phase: if old(self)@.tabs[i].id == tab_id {
                                    TabAnimationPhase::Opening { start: now, duration }
                                } else {
                                    old(self)@.tabs[i].phase
                                },
                                layout_animation: layout_after(
                                    old(self)@.tabs[i],
                                    changes@[i],
                                    duration,
                                    now,
                                ),
                                ..old(self)@.tabs[i]
                            },
                    ),
                    ..old(self)@
                })
            }),
    {
        let ghost before = self@;
        let mut moves: Vec<bool> = Vec::new();
        let mut i: usize = 0;
        while i < changes.len()
            invariant
                i <= changes@.len(),
                moves@.len() == i,
                forall|j: int| 0 <= j < i ==> moves@[j] == !(#[trigger] changes@[j]).same,
            decreases changes@.len() - i,
        {
            moves.push(!changes[i].same);
            i += 1;
        }
        let any: bool = self.tab_widths_change(&moves, tab_id);
        let duration: u64 = if any {
            TAB_OPEN_DURATION
        } else {
            TAB_OPEN_FAST_DURATION
        };
        assert(duration == opening_duration(before.tabs, changes@, tab_id)) by {
            if any {
                let j = choose|j: int|
                    0 <= j < before.tabs.len() && (#[trigger] before.tabs[j]).id != tab_id
                        && moves@[j];
                assert(!changes@[j].same);
            } else {
                assert forall|j: int|
                    0 <= j < before.tabs.len() && (#[trigger] before.tabs[j]).id
                        != tab_id implies changes@[j].same by {
                    assert(!moves@[j]);
                }
            }
        }
        proof {
            lemma_entry_place(before.tabs, tab_id, 0);
        }
        self.set_opening(tab_id, duration, now);
        assert(self@.tabs.len() == before.tabs.len());
        self.start_tab_layout_animation(changes, duration, now);
    }

    /// The width of each tab as it was laid out, a common one where it was not.
    pub fn tab_slot_widths_for_layout(&self, layout: &TabDragLayout) -> (widths: Vec<u32>)
        ensures
            widths@ == self@.tabs.map_values(
                |e: TabEntry|
                    match value_for(layout.tab_ids@, layout.widths@, e.id) {
                        Some(width) => width,
                        None => TAB_FALLBACK_WIDTH,
                    },
            ),
    {
        let ghost all = self@.tabs.map_values(
            |e: TabEntry|
                match value_for(layout.tab_ids@, layout.widths@, e.id) {
                    Some(width) => width,
                    None => TAB_FALLBACK_WIDTH,
                },
        );
        let mut widths: Vec<u32> = Vec::new();
        let mut i: usize = 0;
        while i < self.tabs.len()
            invariant
                i <= self.tabs@.len(),
                all == self@.tabs.map_values(
                    |e: TabEntry|
                        match value_for(layout.tab_ids@, layout.widths@, e.id) {
                            Some(width) => width,
                            None => TAB_FALLBACK_WIDTH,
                        },
                ),
                widths@ == all.take(i as int),
            decreases self.tabs@.len() - i,
        {
            let width: u32 = match layout.width_for(self.tabs[i].id) {
                Some(width) => width,
                None => TAB_FALLBACK_WIDTH,
            };
            widths.push(width);
            i += 1;
            assert(widths@ =~= all.take(i as int));
        }
        assert(widths@ =~= all);
        widths
    }

    /// The width that the dragged tab was laid out with.
    pub fn dragged_tab_width(&self, tab_id: TabId) -> (width: u32)
        ensures
            width == match self.last_layout() {
                Some(layout) => match value_for(layout.tab_ids@, layout.widths@, tab_id) {
                    Some(width) => width,
                    None => TAB_FALLBACK_WIDTH,
                },
                None => TAB_FALLBACK_WIDTH,
            },
    {
        match &self.tab_drag_layout {
            Some(layout) => match layout.width_for(tab_id) {
                Some(width) => width,
                None => TAB_FALLBACK_WIDTH,
            },
            None => TAB_FALLBACK_WIDTH,
        }
    }

    /// Moves a tab to another place. The result says whether it moved.
    pub fn move_tab_to_index(&mut self, from: usize, to: usize) -> (moves: bool)
        requires
            old(self)@.wf(),
        ensures
            final(self)@.wf(),
            final(self).last_layout() == old(self).last_layout(),
            moves == (from < old(self)@.tabs.len() && to < old(self)@.tabs.len() && from != to
                && old(self).last_layout() is Some),
            final(self)@ == if moves {
                WorkspaceModel {
                    tabs: moved(old(self)@.tabs, from as int, to as int),
                    ..old(self)@
                }
            } else {
                old(self)@
            },
    {
        if from >= self.tabs.len() || to >= self.tabs.len() || from == to {
            return false;
        }
        if self.tab_drag_layout.is_none() {
            return false;
        }
        let ghost before = self@;
        move_tab_entries_to_index(&mut self.tabs, from, to);
        proof {
            lemma_move_keeps_wf(before, self@, from as int, to as int);
        }
        true
    }

    /// Starts the animations of tabs that made way for the dragged one. An
    /// offset is given for each tab that has one.
    pub fn start_reorder_animations(
        &mut self,
        dragged: TabId,
        offsets: &Vec<Option<ReorderOffset>>,
        now: u64,
    )
        requires
            old(self)@.wf(),
            offsets@.len() == old(self)@.tabs.len(),
        ensures
            final(self)@.wf(),
            final(self).last_layout() == old(self).last_layout(),
            final(self)@ == (WorkspaceModel {
                tabs: Seq::new(
                    old(self)@.tabs.len(),
                    |i: int|
                        TabEntry {
                            reorder_animation: if old(self)@.tabs[i].id == dragged {
                                None
                            } else {
                                match offsets@[i] {
                                    Some(offset) => reorder_over(offset, now),
                                    None => old(self)@.tabs[i].reorder_animation,
                                }
                            },
                            ..old(self)@.tabs[i]
                        },
                ),
                ..old(self)@
            }),
    {
        let ghost before = self@;
        let n: usize = self.tabs.len();
        let mut i: usize = 0;
        while i < n
            invariant
                i <= n,
                n == before.tabs.len(),
                self.tabs@.len() == n,
                offsets@.len() == n,
                self@ == (WorkspaceModel { tabs: self.tabs@, ..before }),
                self.last_layout() == old(self).last_layout(),
                forall|j: int|
                    0 <= j < i ==> #[trigger] self.tabs@[j] == (TabEntry {
                        reorder_animation: if before.tabs[j].id == dragged {
                            None
                        } else {
                            match offsets@[j] {
                                Some(offset) => reorder_over(offset, now),
                                None => before.tabs[j].reorder_animation,
                            }
                        },
                        ..before.tabs[j]
                    }),
                forall|j: int| i <= j < n ==> #[trigger] self.tabs@[j] == before.tabs[j],
            decreases n - i,
        {
            if self.tabs[i].id == dragged {
                self.tabs[i].reorder_animation = None;
            } else {
                match offsets[i] {
                    Some(offset) => {
                        self.tabs[i].reorder_animation = over_offset(offset, now);
                    },
                    None => {},
                }
            }
            i += 1;
        }
        proof {
            lemma_same_phases_keep_wf(before, self@);
        }
    }

    /// Replaces what is dragged.
    pub fn set_dragging(&mut self, dragging: Option<TabDragState>)
        ensures
            final(self).last_layout() == old(self).last_layout(),
            final(self)@ == (WorkspaceModel { dragging, ..old(self)@ }),
    {
        self.dragging = dragging;
    }

    /// Ends a drag. The result is what was dragged.
    pub fn take_drag(&mut self) -> (state: Option<TabDragState>)
        ensures
            final(self).last_layout() == old(self).last_layout(),
            state == old(self)@.dragging,
            final(self)@ == (WorkspaceModel { dragging: None, ..old(self)@ }),
    {
        let state = self.dragging;
        self.dragging = None;
        state
    }

    /// Lets a tab that was dragged return to its place, over an offset. Nothing
    /// happens if it was not laid out or is gone.
    pub fn start_tab_drag_return_animation(
        &mut self,
        tab_id: TabId,
        offset: ReorderOffset,
        now: u64,
    )
        requires
            old(self)@.wf(),
        ensures
            final(self)@.wf(),
            final(self).last_layout() == old(self).last_layout(),
            final(self)@ == ({
                let i = entry_place(old(self)@.tabs, tab_id, 0);
                if old(self).last_layout() matches Some(layout) && value_for(
                    layout.tab_ids@,
                    layout.positions@,
                    tab_id,
                ) is Some && has_tab(old(self)@.tabs, tab_id) {
                    WorkspaceModel {
                        tabs: old(self)@.tabs.update(
                            i,
                            TabEntry {
                                reorder_animation: reorder_over(offset, now),
                                ..old(self)@.tabs[i]
                            },
                        ),
                        ..old(self)@
                    }
                } else {
                    old(self)@
                }
            }),
    {
        let laid_out: bool = match &self.tab_drag_layout {
            Some(layout) => layout.position_for(tab_id).is_some(),
            None => false,
        };
        if !laid_out {
            return;
        }
        let ghost before = self@;
        match self.entry_index(tab_id) {
            Some(i) => {
                assert(before.tabs[i as int].id == tab_id);
                self.tabs[i].reorder_animation = over_offset(offset, now);
                proof {
                    lemma_same_phases_keep_wf(before, self@);
                }
            },
            None => {},
        }
    }

    /// Whether scrolling goes on while a tab is dragged: the strip can be
    /// scrolled, and the tab is at its edge.
    pub fn update_tab_drag_autoscroll(
        &mut self,
        can_scroll: bool,
        edge_reached: bool,
        pointer_x: u32,
        now: u64,
    ) -> (scrolls: bool)
        ensures
            final(self).last_layout() == old(self).last_layout(),
            scrolls == (old(self)@.dragging is Some && old(self)@.scrollable && can_scroll
                && edge_reached),
            final(self)@ == match old(self)@.dragging {
                None => old(self)@,
                Some(state) => if scrolls {
                    WorkspaceModel {
                        scroll_animation: None,
                        dragging: Some(
                            TabDragState {
                                autoscroll_pointer_x: Some(pointer_x),
                                autoscroll_last_update: if state.autoscroll_pointer_x is None {
                                    now
                                } else {
                                    state.autoscroll_last_update
                                },
                                ..state
                            },
                        ),
                        ..old(self)@
                    }
                } else {
                    WorkspaceModel {
                        dragging: Some(TabDragState { autoscroll_pointer_x: None, ..state }),
                        ..old(self)@
                    }
                },
            },
    {
        match self.dragging {
            None => false,
            Some(state) => {
                let mut next = state;
                let scrolls: bool = self.tab_strip_is_scrollable && can_scroll && edge_reached;
                if scrolls {
                    self.tab_scroll_animation = None;
                    if state.autoscroll_pointer_x.is_none() {
                        next.autoscroll_last_update = now;
                    }
                    next.autoscroll_pointer_x = Some(pointer_x);
                } else {
                    next.autoscroll_pointer_x = None;
                }
                self.dragging = Some(next);
                scrolls
            },
        }
    }

    /// By how much time to scroll while a tab is dragged, if at all. After a
    /// long pause scrolling goes on as if it had been a short one.
    pub fn advance_tab_drag_autoscroll(&mut self, now: u64) -> (step: Option<AutoscrollStep>)
        ensures
            final(self).last_layout() == old(self).last_layout(),
            match old(self)@.dragging {
                None => step is None && final(self)@ == old(self)@,
                Some(state) => {
                    if !old(self)@.scrollable {
                        &&& step is None
                        &&& final(self)@ == (WorkspaceModel {
                            dragging: Some(TabDragState { autoscroll_pointer_x: None, ..state }),
                            ..old(self)@
                        })
                    } else {
                        match state.autoscroll_pointer_x {
                            None => step is None && final(self)@ == old(self)@,
                            Some(pointer_x) => {
                                let time = elapsed(state.autoscroll_last_update, now);
                                &&& step == Some(
                                    AutoscrollStep {
                                        tab_id: state.tab_id,
                                        pointer_x,
                                        elapsed: if time > TAB_DRAG_AUTOSCROLL_MAX_ELAPSED {
                                            TAB_DRAG_AUTOSCROLL_MAX_ELAPSED
                                        } else {
                                            time as u64
                                        },
                                    },
                                )
                                &&& final(self)@ == (WorkspaceModel {
                                    dragging: Some(
                                        TabDragState { autoscroll_last_update: now, ..state },
                                    ),
                                    ..old(self)@
                                })
                            },
                        }
                    }
                },
            },
    {
        match self.dragging {
            None => None,
            Some(state) => {
                let mut next = state;
                if !self.tab_strip_is_scrollable {
                    next.autoscroll_pointer_x = None;
                    self.dragging = Some(next);
                    return None;
                }
                match state.autoscroll_pointer_x {
                    None => None,
                    Some(pointer_x) => {
                        let time: u64 = time_since(state.autoscroll_last_update, now);
                        let elapsed: u64 = if time > TAB_DRAG_AUTOSCROLL_MAX_ELAPSED {
                            TAB_DRAG_AUTOSCROLL_MAX_ELAPSED
                        } else {
                            time
                        };
                        next.autoscroll_last_update = now;
                        self.dragging = Some(next);
                        Some(AutoscrollStep { tab_id: state.tab_id, pointer_x, elapsed })
                    },
                }
            },
        }
    }

    /// Starts to scroll to a target, if there is one. The result says whether
    /// there is.
    pub fn start_tab_scroll_animation(&mut self, target: Option<u32>, from_x: u32, now: u64) -> (
        starts: bool)
        ensures
            final(self).last_layout() == old(self).last_layout(),
            starts == target is Some,
            final(self)@ == match target {
                Some(to_x) => WorkspaceModel {
                    scroll_animation: Some(TabScrollAnimation { start: now, from_x, to_x }),
                    ..old(self)@
                },
                None => old(self)@,
            },
    {
        match target {
            Some(to_x) => {
                self.tab_scroll_animation = Some(TabScrollAnimation { start: now, from_x, to_x });
                true
            },
            None => false,
        }
    }

    /// Ends the scrolling if the strip has arrived. The result says whether
    /// another frame is needed.
    pub fn advance_tab_scroll_animation(&mut self, arrived: bool) -> (needs_frame: bool)
        ensures
            final(self).last_layout() == old(self).last_layout(),
            needs_frame == (old(self)@.scroll_animation is Some && !arrived),
            final(self)@ == (WorkspaceModel {
                scroll_animation: if arrived {
                    None
                } else {
                    old(self)@.scroll_animation
                },
                ..old(self)@
            }),
    {
        if arrived {
            self.tab_scroll_animation = None;
            false
        } else {
            self.tab_scroll_animation.is_some()
        }
    }

    /// What to do when the window is asked to close: ask first if more than one
    /// tab is open.
    pub fn handle_window_should_close(&self) -> (answer: WindowClose)
        ensures
            answer == if self@.open().len() <= 1 {
                WindowClose::Allowed
            } else {
                WindowClose::Ask { tabs: self@.open().len() as usize }
            },
    {
        let tabs: usize = self.open_tab_count();
        if tabs <= 1 {
            WindowClose::Allowed
        } else {
            WindowClose::Ask { tabs }
        }
    }

    /// Takes note of a layout that is about to be drawn, and decides where the
    /// strip scrolls: to the active tab, if it is wanted in view.
    pub fn prepare_render(&mut self, is_scrollable: bool, layout: TabDragLayout) -> (plan:
        ScrollPlan)
        requires
            old(self)@.wf(),
        ensures
            final(self)@.wf(),
            final(self).last_layout() == Some(layout),
            ({
                let wanted = old(self)@.scroll_active_tab_into_view;
                let opening = old(self)@.tabs[entry_place(
                    old(self)@.tabs,
                    old(self)@.active_tab,
                    0,
                )].phase is Opening;
                let target = view_target(
                    place_in(old(self)@.open(), old(self)@.active_tab)->0,
                    old(self)@.open().len() as int,
                );
                let scrolls = is_scrollable && wanted;
                &&& plan.target == if scrolls {
                    target
                } else {
                    TabScrollTarget::Stay
                }
                &&& plan.needs_frame == (scrolls && target is Item && !opening)
                &&& final(self)@ == (WorkspaceModel {
                    scrollable: is_scrollable,
                    scroll_animation: if !is_scrollable || wanted {
                        None
                    } else {
                        old(self)@.scroll_animation
                    },
                    scroll_active_tab_into_view: if scrolls {
                        opening
                    } else {
                        wanted
                    },
                    ..old(self)@
                })
            }),
    {
        let active_index: usize = self.active_place();
        let count: usize = self.open_tab_count();
        let opening: bool = match self.entry(self.active_tab) {
            Some(entry) => matches!(entry.phase, TabAnimationPhase::Opening { .. }),
            None => false,
        };
        assert(has_tab(self@.tabs, self@.active_tab)) by {
            let tabs = self@.tabs;
            let k = choose|k: int|
                0 <= k < tabs.len() && (#[trigger] tabs[k]).id == self@.active_tab && !(
                tabs[k].phase is Closing);
            assert(tabs[k].id == self@.active_tab);
        }
        self.tab_strip_is_scrollable = is_scrollable;
        self.tab_drag_layout = Some(layout);
        if !is_scrollable || self.scroll_active_tab_into_view {
            self.tab_scroll_animation = None;
        }
        if is_scrollable && self.scroll_active_tab_into_view {
            let target = scroll_tab_into_view(active_index, count);
            let deferred: bool = matches!(target.update(), TabScrollUpdate::Deferred);
            self.scroll_active_tab_into_view = opening;
            ScrollPlan { target, needs_frame: deferred && !opening }
        } else {
            ScrollPlan { target: TabScrollTarget::Stay, needs_frame: false }
        }
    }

    /// How the tab at a place is drawn.
    pub fn tab_look(&self, index: usize) -> (look: TabLook)
        requires
            index < self@.tabs.len(),
        ensures
            look == look_of(self@, self.last_layout(), index as int),
    {
        assert(index < self.tabs.len());
        let entry = &self.tabs[index];
        let id = entry.id;
        let active: bool = self.active_tab == id;
        let hovered: bool = match self.hovered_tab {
            Some(hovered) => hovered == id,
            None => false,
        };
        let dragged: bool = match self.dragging {
            Some(state) => state.tab_id == id,
            None => false,
        };
        let by_active: bool = match self.entry_index(self.active_tab) {
            Some(at) => index == at || index + 1 == at,
            None => false,
        };
        let by_hovered: bool = match self.hovered_tab {
            Some(hovered) => match self.entry_index(hovered) {
                Some(at) => index == at || index + 1 == at,
                None => false,
            },
            None => false,
        };
        let closing: bool = matches!(entry.phase, TabAnimationPhase::Closing { .. });
        let at_rest: bool = matches!(entry.phase, TabAnimationPhase::Open);
        let overlay: TabOverlay = match self.dragging {
            Some(state) if state.tab_id == id => TabOverlay::Dragged(state.visual_left_x),
            _ => if active && entry.reorder_animation.is_some() {
                match &self.tab_drag_layout {
                    Some(layout) => match layout.position_for(id) {
                        Some(position) => TabOverlay::Returning(position),
                        None => TabOverlay::Absent,
                    },
                    None => TabOverlay::Absent,
                }
            } else {
                TabOverlay::Absent
            },
        };
        TabLook {
            tab_id: id,
            active,
            hovered: hovered && !dragged,
            closing,
            draggable: active && at_rest,
            dragged,
            separator: self.dragging.is_none() && !by_active && !by_hovered,
            overlay,
        }
    }
}

/// Whether a tab is at a place or just left of it.
pub open spec fn touches(index: int, at: int) -> bool {
    index == at || index + 1 == at
}

/// How a tab is drawn: without a line on its right beside the active tab, the
/// hovered one, and while a tab is dragged.
pub open spec fn look_of(w: WorkspaceModel, layout: Option<TabDragLayout>, index: int) -> TabLook {
    let e = w.tabs[index];
    let active = w.active_tab == e.id;
    let dragged = drags(w.dragging, e.id);
    let active_at = entry_place(w.tabs, w.active_tab, 0);
    let by_active = active_at < w.tabs.len() && touches(index, active_at);
    let by_hovered = match w.hovered_tab {
        Some(id) => entry_place(w.tabs, id, 0) < w.tabs.len() && touches(
            index,
            entry_place(w.tabs, id, 0),
        ),
        None => false,
    };
    TabLook {
        tab_id: e.id,
        active,
        hovered: w.hovered_tab == Some(e.id) && !dragged,
        closing: e.phase is Closing,
        draggable: active && e.phase is Open,
        dragged,
        separator: w.dragging is None && !by_active && !by_hovered,
        overlay: if dragged {
            TabOverlay::Dragged(w.dragging->0.visual_left_x)
        } else if active && e.reorder_animation is Some {
            match layout {
                Some(layout) => match value_for(layout.tab_ids@, layout.positions@, e.id) {
                    Some(position) => TabOverlay::Returning(position),
                    None => TabOverlay::Absent,
                },
                None => TabOverlay::Absent,
            }
        } else {
            TabOverlay::Absent
        },
    }
}

fn over_offset(offset: ReorderOffset, now: u64) -> (animation: Option<TabReorderAnimation>)
    ensures
        animation == reorder_over(offset, now),
{
    if offset.zero {
        None
    } else {
        Some(TabReorderAnimation { start: now, offset_x: offset.offset_x })
    }
}

/// The tab after the active one, the first after the last.
pub open spec fn next_of(open: Seq<TabId>, active: TabId) -> TabId {
    let at = place_in(open, active)->0;
    if at + 1 == open.len() {
        open[0]
    } else {
        open[at + 1]
    }
}

/// The tab before the active one, the last before the first.
pub open spec fn previous_of(open: Seq<TabId>, active: TabId) -> TabId {
    let at = place_in(open, active)->0;
    if at == 0 {
        open.last()
    } else {
        open[at - 1]
    }
}

/// Changes that keep identities, and close no tab, keep a workspace in order.
proof fn lemma_same_phases_keep_wf(before: WorkspaceModel, after: WorkspaceModel)
    requires
        before.wf(),
        after.active_tab == before.active_tab,
        after.tabs.len() == before.tabs.len(),
        forall|i: int|
            0 <= i < before.tabs.len() ==> (#[trigger] after.tabs[i]).id == before.tabs[i].id,
        forall|i: int|
            0 <= i < before.tabs.len() && (#[trigger] after.tabs[i]).phase is Closing
                ==> before.tabs[i].phase is Closing,
    ensures
        after.wf(),
{
    let k = choose|k: int|
        0 <= k < before.tabs.len() && (#[trigger] before.tabs[k]).id == before.active_tab && !(
        before.tabs[k].phase is Closing);
    assert(after.tabs[k].id == after.active_tab);
    assert forall|a: int, b: int|
        #![trigger after.tabs[a], after.tabs[b]]
        0 <= a < b < after.tabs.len() implies after.tabs[a].id != after.tabs[b].id by {
        assert(before.tabs[a].id != before.tabs[b].id);
    }
}

/// Every open tab is one of the tabs.
proof fn lemma_open_is_tab(tabs: Seq<TabEntry>, n: int, k: int)
    requires
        0 <= n <= tabs.len(),
        0 <= k < open_ids(tabs, n).len(),
    ensures
        exists|i: int| 0 <= i < n && (#[trigger] tabs[i]).id == open_ids(tabs, n)[k],
    decreases n,
{
    if n > 0 {
        if k < open_ids(tabs, n - 1).len() {
            lemma_open_is_tab(tabs, n - 1, k);
        } else {
            assert(tabs[n - 1].id == open_ids(tabs, n)[k]);
        }
    }
}

pub(crate) proof fn lemma_open_distinct(tabs: Seq<TabEntry>, n: int)
    requires
        0 <= n <= tabs.len(),
        ids_differ(tabs),
    ensures
        open_ids(tabs, n).no_duplicates(),
    decreases n,
{
    if n > 0 {
        lemma_open_distinct(tabs, n - 1);
        let before = open_ids(tabs, n - 1);
        let now = open_ids(tabs, n);
        if !(tabs[n - 1].phase is Closing) {
            assert forall|a: int, b: int|
                0 <= a < now.len() && 0 <= b < now.len() && a != b implies now[a] != now[b] by {
                if a == before.len() {
                    lemma_open_is_tab(tabs, n - 1, b);
                } else if b == before.len() {
                    lemma_open_is_tab(tabs, n - 1, a);
                }
            }
        }
    }
}

proof fn lemma_open_ids_prefix(tabs: Seq<TabEntry>, after: Seq<TabEntry>, n: int)
    requires
        0 <= n <= tabs.len(),
        n <= after.len(),
        forall|j: int| 0 <= j < n ==> tabs[j] == after[j],
    ensures
        open_ids(tabs, n) == open_ids(after, n),
    decreases n,
{
    if n > 0 {
        lemma_open_ids_prefix(tabs, after, n - 1);
    }
}

/// Closing a tab takes its identity out of the open ones.
proof fn lemma_open_ids_drop(tabs: Seq<TabEntry>, after: Seq<TabEntry>, i: int, n: int)
    requires
        0 <= i < n <= tabs.len(),
        after.len() == tabs.len(),
        !(tabs[i].phase is Closing),
        after[i].phase is Closing,
        forall|j: int| 0 <= j < n && j != i ==> tabs[j] == after[j],
    ensures
        open_ids(tabs, i).len() < open_ids(tabs, n).len(),
        open_ids(tabs, n)[open_ids(tabs, i).len() as int] == tabs[i].id,
        open_ids(after, n) == open_ids(tabs, n).remove(open_ids(tabs, i).len() as int),
    decreases n,
{
    let at = open_ids(tabs, i).len() as int;
    if n == i + 1 {
        lemma_open_ids_prefix(tabs, after, i);
        assert(open_ids(tabs, n).remove(at) =~= open_ids(after, n));
    } else {
        lemma_open_ids_drop(tabs, after, i, n - 1);
        assert(tabs[n - 1] == after[n - 1]);
        assert(open_ids(after, n) =~= open_ids(tabs, n).remove(at));
    }
}

proof fn lemma_open_ids_without(
    tabs: Seq<TabEntry>,
    after: Seq<TabEntry>,
    i: int,
    n: int,
    at: int,
)
    requires
        0 <= i < n,
        n == tabs.len(),
        after.len() == tabs.len(),
        !(tabs[i].phase is Closing),
        after[i].phase is Closing,
        forall|j: int| 0 <= j < n && j != i ==> tabs[j] == after[j],
        open_ids(tabs, n).no_duplicates(),
        place_in(open_ids(tabs, n), tabs[i].id) == Some(at),
    ensures
        0 <= at < open_ids(tabs, n).len(),
        open_ids(after, n) == open_ids(tabs, n).remove(at),
{
    lemma_open_ids_drop(tabs, after, i, n);
    lemma_contains_has_place(open_ids(tabs, n), tabs[i].id);
}

/// What is kept of the tabs are tabs, in order.
proof fn lemma_without_is_tab(tabs: Seq<TabEntry>, gone: Seq<TabId>, n: int, k: int)
    requires
        0 <= n <= tabs.len(),
        0 <= k < without(tabs, gone, n).len(),
    ensures
        exists|i: int| 0 <= i < n && #[trigger] tabs[i] == without(tabs, gone, n)[k],
    decreases n,
{
    if n > 0 {
        if k < without(tabs, gone, n - 1).len() {
            lemma_without_is_tab(tabs, gone, n - 1, k);
        } else {
            assert(tabs[n - 1] == without(tabs, gone, n)[k]);
        }
    }
}

proof fn lemma_without_distinct(tabs: Seq<TabEntry>, gone: Seq<TabId>, n: int)
    requires
        0 <= n <= tabs.len(),
        ids_differ(tabs),
    ensures
        ids_differ(without(tabs, gone, n)),
    decreases n,
{
    if n > 0 {
        lemma_without_distinct(tabs, gone, n - 1);
        let before = without(tabs, gone, n - 1);
        let now = without(tabs, gone, n);
        if !gone.contains(tabs[n - 1].id) {
            assert forall|a: int, b: int|
                #![trigger now[a], now[b]]
                0 <= a < b < now.len() implies now[a].id != now[b].id by {
                assert(now[a] == before[a]);
                if b == before.len() {
                    lemma_without_is_tab(tabs, gone, n - 1, a);
                } else {
                    assert(now[b] == before[b]);
                }
            }
        }
    }
}

proof fn lemma_without_keeps(tabs: Seq<TabEntry>, gone: Seq<TabId>, n: int, k: int)
    requires
        0 <= k < n <= tabs.len(),
        !gone.contains(tabs[k].id),
    ensures
        without(tabs, gone, n).contains(tabs[k]),
    decreases n,
{
    let now = without(tabs, gone, n);
    if k == n - 1 {
        assert(now.last() == tabs[k]);
    } else {
        lemma_without_keeps(tabs, gone, n - 1, k);
        let before = without(tabs, gone, n - 1);
        let m = choose|m: int| 0 <= m < before.len() && before[m] == tabs[k];
        assert(now[m] == tabs[k]);
    }
}

/// Where the element at a place came from.
spec fn source(k: int, from: int, to: int) -> int {
    if k == to {
        from
    } else if from < to {
        if from <= k < to {
            k + 1
        } else {
            k
        }
    } else {
        if to < k <= from {
            k - 1
        } else {
            k
        }
    }
}

proof fn lemma_move_keeps_wf(before: WorkspaceModel, after: WorkspaceModel, from: int, to: int)
    requires
        before.wf(),
        0 <= from < before.tabs.len(),
        0 <= to < before.tabs.len(),
        after == (WorkspaceModel { tabs: moved(before.tabs, from, to), ..before }),
    ensures
        after.wf(),
{
    let n = before.tabs.len() as int;
    assert forall|k: int| 0 <= k < n implies #[trigger] after.tabs[k] == before.tabs[source(
        k,
        from,
        to,
    )] by {}
    assert forall|a: int, b: int|
        #![trigger after.tabs[a], after.tabs[b]]
        0 <= a < b < after.tabs.len() implies after.tabs[a].id != after.tabs[b].id by {
        let x = source(a, from, to);
        let y = source(b, from, to);
        assert(x != y && 0 <= x < n && 0 <= y < n);
        if x < y {
            assert(before.tabs[x].id != before.tabs[y].id);
        } else {
            assert(before.tabs[y].id != before.tabs[x].id);
        }
    }
    let k = choose|k: int|
        0 <= k < n && (#[trigger] before.tabs[k]).id == before.active_tab && !(
        before.tabs[k].phase is Closing);
    let m = source(k, to, from);
    assert(source(m, from, to) == k && 0 <= m < n);
    assert(after.tabs[m].id == after.active_tab);
}

/// Going to the next tab and back leads to where one was.
pub proof fn law_previous_undoes_next(w: WorkspaceModel)
    requires
        w.wf(),
    ensures
        previous_of(w.open(), next_of(w.open(), w.active_tab)) == w.active_tab,
        next_of(w.open(), previous_of(w.open(), w.active_tab)) == w.active_tab,
        selectable(w.tabs, next_of(w.open(), w.active_tab)),
        selectable(w.tabs, previous_of(w.open(), w.active_tab)),
{
    let n = w.tabs.len() as int;
    let open = w.open();
    let next = next_of(open, w.active_tab);
    let previous = previous_of(open, w.active_tab);
    lemma_open_ids_contain(w.tabs, n, w.active_tab);
    lemma_contains_has_place(open, w.active_tab);
    lemma_open_distinct(w.tabs, n);
    let at = place_in(open, w.active_tab)->0;
    assert(open.contains(next)) by {
        assert(next == open[if at + 1 == open.len() {
            0
        } else {
            at + 1
        }]);
    }
    assert(open.contains(previous)) by {
        assert(previous == open[if at == 0 {
            open.len() - 1
        } else {
            at - 1
        }]);
    }
    lemma_contains_has_place(open, next);
    lemma_contains_has_place(open, previous);
    lemma_open_ids_contain(w.tabs, n, next);
    lemma_open_ids_contain(w.tabs, n, previous);
}

/// A tab that has closed was closing, so the active tab is not among them.
pub proof fn law_active_tab_never_closed(w: WorkspaceModel, now: u64)
    requires
        w.wf(),
    ensures
        !closed_ids(w.tabs, now, w.tabs.len() as int).contains(w.active_tab),
{
    let n = w.tabs.len() as int;
    let gone = closed_ids(w.tabs, now, n);
    if gone.contains(w.active_tab) {
        lemma_closed_is_closing(w.tabs, now, n, w.active_tab);
        let a = choose|a: int|
            0 <= a < n && (#[trigger] w.tabs[a]).id == w.active_tab && w.tabs[a].phase is Closing;
        let b = choose|b: int|
            0 <= b < n && (#[trigger] w.tabs[b]).id == w.active_tab && !(
            w.tabs[b].phase is Closing);
        assert(w.tabs[a].id == w.tabs[b].id);
    }
}

proof fn lemma_closed_is_closing(tabs: Seq<TabEntry>, now: u64, n: int, id: TabId)
    requires
        0 <= n <= tabs.len(),
        closed_ids(tabs, now, n).contains(id),
    ensures
        exists|i: int| 0 <= i < n && (#[trigger] tabs[i]).id == id && tabs[i].phase is Closing,
    decreases n,
{
    if n > 0 {
        let all = closed_ids(tabs, now, n);
        let before = closed_ids(tabs, now, n - 1);
        let k = choose|k: int| 0 <= k < all.len() && all[k] == id;
        if k < before.len() {
            assert(before[k] == id);
            lemma_closed_is_closing(tabs, now, n - 1, id);
        } else {
            assert(tabs[n - 1].id == id);
        }
    }
}

} // verus!
