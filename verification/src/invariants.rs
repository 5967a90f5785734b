//! The layout's checks on itself.

use vstd::prelude::*;

use crate::activity::{Activity, ActivityModel, EntryModel, ViewEntry};
use crate::bookmarks::Bookmark;
use crate::ids::{ActivityId, OutputId, WindowId, WorkspaceId};
use crate::layout::{InteractiveMoveState, Layout, LayoutModel};
use crate::membership::lists;
use crate::monitor::Monitor;
use crate::pool::{PoolModel, WorkspacePool};
use crate::text::{eq_ignore_ascii_case, same_name};
use crate::view::{ViewModel, WorkspaceView};
use crate::workspace::{Output, Workspace, WorkspaceModel};

verus! {

/// Whether view `v` ends with an empty workspace and, if `leading`, also begins with one. The two
/// are not next to each other unless other activities share the last one.
pub open spec fn bookended(pool: PoolModel, v: ViewModel, leading: bool) -> bool {
    v.ids.len() > 0 && !pool.busy(v.ids.last()) && (leading ==> !pool.busy(v.ids[0]) && (
    v.ids.len() == 2 ==> pool.shared(v.ids[1])))
}

/// Whether workspace `w` is routed to `output`.
pub open spec fn owned_on(w: WorkspaceModel, output: Output) -> bool {
    match w.output_id {
        Some(out) => out.designates(output),
        None => false,
    }
}

/// The name of workspace `id`.
pub open spec fn name_of(pool: PoolModel, id: WorkspaceId) -> Option<Seq<char>> {
    match pool.get(id) {
        Some(w) => w.name,
        None => None,
    }
}

/// Whether workspaces `a` and `b` have the same name up to case.
pub open spec fn namesakes(pool: PoolModel, a: WorkspaceId, b: WorkspaceId) -> bool {
    match (name_of(pool, a), name_of(pool, b)) {
        (Some(x), Some(y)) => same_name(x, y),
        _ => false,
    }
}

/// Whether the user swipes along workspace `id`.
pub open spec fn is_slid(pool: PoolModel, id: WorkspaceId) -> bool {
    match pool.get(id) {
        Some(w) => w.view_gesture is Some,
        None => false,
    }
}

impl LayoutModel {
    /// Whether window `w` is anywhere in the layout.
    pub open spec fn has_window(self, w: WindowId) -> bool {
        self.is_dragged(w) || self.home_of(w) is Some
    }

    /// A window that is grabbed is in the layout; one that is dragged has its normal size.
    pub open spec fn move_sound(self) -> bool {
        match self.moving {
            Some(InteractiveMoveState::Starting { window_id }) => self.has_window(window_id),
            Some(InteractiveMoveState::Moving(d)) => d.tile.window.pending_sizing_mode is Normal,
            None => true,
        }
    }

    /// No activity occurs twice, the active one is there with as many views as outputs are
    /// connected, and the one before it is another.
    pub open spec fn acts_sound(self) -> bool {
        &&& self.acts.ids().no_duplicates()
        &&& match self.acts.get(self.acts.active) {
            Some(a) => a.views.len() == self.monitors.len(),
            None => false,
        }
        &&& match self.acts.previous {
            Some(p) => self.acts.has(p) && p != self.acts.active,
            None => true,
        }
    }

    /// Bookmark `b` is numbered, and leads to a window that is there, if to any.
    pub open spec fn bookmark_sound(self, b: Bookmark) -> bool {
        b.id < self.bookmarks.next && match b.window {
            Some(w) => self.has_window(w),
            None => true,
        }
    }

    /// No two bookmarks share a number, a window or a key; the user walks among them.
    pub open spec fn bookmarks_sound(self) -> bool {
        let list = self.bookmarks.list;
        &&& match self.bookmarks.cursor {
            Some(c) => c < list.len(),
            None => true,
        }
        &&& match self.bookmarks.last_visited {
            Some(b) => b < self.bookmarks.next,
            None => true,
        }
        &&& match self.bookmarks.return_target {
            Some(w) => self.has_window(w),
            None => true,
        }
        &&& forall|i: int| 0 <= i < list.len() ==> self.bookmark_sound(#[trigger] list[i])
        &&& forall|i: int, j: int|
            0 <= i < j < list.len() ==> !clash(#[trigger] list[i], #[trigger] list[j])
    }

    /// Workspace `w` belongs to some activity, and to none that is gone.
    pub open spec fn member_sound(self, w: WorkspaceModel) -> bool {
        w.activities.len() > 0 && forall|j: int|
            0 <= j < w.activities.len() ==> self.acts.has(#[trigger] w.activities[j])
    }

    /// Whether any activity shows workspace `id`.
    pub open spec fn is_shown(self, id: WorkspaceId) -> bool {
        self.holding_output(id) is Some
    }

    /// Workspace `w` waits for an output or is shown by each of its activities.
    pub open spec fn anchored(self, w: WorkspaceModel) -> bool {
        self.parked.contains(w.id) || (self.is_shown(w.id) && forall|j: int|
            0 <= j < w.activities.len() ==> self.shows_in(#[trigger] w.activities[j], w.id))
    }

    /// Whether activity `act` shows workspace `id`.
    pub open spec fn shows_in(self, act: ActivityId, id: WorkspaceId) -> bool {
        match self.acts.get(act) {
            Some(a) => a.output_of(id) is Some,
            None => false,
        }
    }

    /// Workspace `id` is in the pool and belongs to activity `act`.
    pub open spec fn is_member(self, act: ActivityId, id: WorkspaceId) -> bool {
        match self.pool.get(id) {
            Some(w) => w.activities.contains(act),
            None => false,
        }
    }

    /// Activity `act`'s view `e` is usable and of a connected output, and shows only workspaces of
    /// the activity.
    pub open spec fn entry_sound(self, act: ActivityId, e: EntryModel) -> bool {
        e.view.wf() && self.monitor_pos(e.output) is Some && forall|k: int|
            0 <= k < e.view.ids.len() ==> self.is_member(act, #[trigger] e.view.ids[k])
    }

    /// Activity `a` has one view of each connected output and no others.
    pub open spec fn activity_sound(self, a: ActivityModel) -> bool {
        &&& forall|j: int| 0 <= j < a.views.len() ==> self.entry_sound(a.id, #[trigger] a.views[j])
        &&& forall|i: int, j: int|
            0 <= i < j < a.views.len() ==> (#[trigger] a.views[i]).output != (
            #[trigger] a.views[j]).output
        &&& forall|m: int|
            0 <= m < self.monitors.len() ==> a.view_of(
                (#[trigger] self.monitors[m]).output.id,
            ) is Some
    }

    /// A workspace that waits for an output is in the pool, and no activity shows it.
    pub open spec fn parked_sound(self) -> bool {
        &&& self.parked.no_duplicates()
        &&& forall|i: int|
            0 <= i < self.parked.len() ==> self.pool.has(#[trigger] self.parked[i])
                && !self.is_shown(self.parked[i])
    }

    /// No two of the workspaces `ids` have the same name up to case.
    pub open spec fn names_distinct(self, ids: Seq<WorkspaceId>) -> bool {
        forall|i: int, j: int|
            0 <= i < j < ids.len() ==> !namesakes(self.pool, #[trigger] ids[i], #[trigger] ids[j])
    }

    /// The user swipes along at most one of the workspaces `ids`.
    pub open spec fn slides_alone(self, ids: Seq<WorkspaceId>) -> bool {
        forall|i: int, j: int|
            0 <= i < j < ids.len() ==> !(is_slid(self.pool, #[trigger] ids[i]) && is_slid(
                self.pool,
                #[trigger] ids[j],
            ))
    }

    /// The workspaces that the first `n` monitors show, in order.
    pub open spec fn strip(self, n: int) -> Seq<WorkspaceId>
        decreases n,
    {
        if n <= 0 {
            Seq::empty()
        } else {
            self.strip(n - 1) + match self.active_view(self.monitors[n - 1].output.id) {
                Some(v) => v.ids,
                None => Seq::empty(),
            }
        }
    }

    /// Whether workspace `id` is routed to `output`.
    pub open spec fn is_owned_on(self, id: WorkspaceId, output: Output) -> bool {
        match self.pool.get(id) {
            Some(w) => owned_on(w, output),
            None => false,
        }
    }

    /// Whether workspace `id` is routed to a connected output.
    pub open spec fn has_own_monitor(self, id: WorkspaceId) -> bool {
        exists|m: int|
            0 <= m < self.monitors.len() && self.is_owned_on(id, (#[trigger] self.monitors[m]).output)
    }

    /// The primary monitor shows no workspace that is routed to another connected output; any
    /// other one shows a workspace of its own.
    pub open spec fn homes_sound(self, m: int, ids: Seq<WorkspaceId>) -> bool {
        let output = self.monitors[m].output;
        if m == self.primary {
            forall|k: int|
                0 <= k < ids.len() ==> self.is_owned_on(#[trigger] ids[k], output)
                    || !self.has_own_monitor(ids[k])
        } else {
            exists|k: int| 0 <= k < ids.len() && self.is_owned_on(#[trigger] ids[k], output)
        }
    }

    /// Every activity's view of output `out` has its bookends.
    pub open spec fn bookends_sound(self, out: OutputId, leading: bool) -> bool {
        forall|i: int|
            0 <= i < self.acts.list.len() ==> match (#[trigger] self.acts.list[i]).view_of(out) {
                Some(v) => bookended(self.pool, v, leading),
                None => true,
            }
    }

    /// Monitor `m` agrees with the layout on the overview, slides away from an activity that is
    /// there and not active, if at all, and never in the overview.
    pub open spec fn monitor_agrees(self, m: Monitor) -> bool {
        &&& m.overview_open == self.overview_open
        &&& match m.activity_switch {
            Some(s) => self.acts.has(s.from) && s.from != self.acts.active && !self.overview_open,
            None => true,
        }
    }

    /// Monitor `m` agrees with the layout, and every view of its output has its bookends.
    pub open spec fn monitor_sound(self, m: Monitor) -> bool {
        self.monitor_agrees(m) && self.bookends_sound(m.output.id, m.empty_workspace_above_first)
    }

    /// Monitors that slide between activities all do so the same way.
    pub open spec fn slides_agree(self) -> bool {
        forall|i: int, j: int|
            0 <= i < j < self.monitors.len() && (#[trigger] self.monitors[i]).activity_switch is Some
                && (#[trigger] self.monitors[j]).activity_switch is Some
                ==> self.monitors[i].activity_switch == self.monitors[j].activity_switch
    }

    /// What holds while no output is connected.
    pub open spec fn parked_state(self) -> bool {
        &&& self.primary == 0
        &&& self.focused == 0
        &&& forall|i: int| 0 <= i < self.parked.len() ==> self.pool.busy(#[trigger] self.parked[i])
        &&& self.names_distinct(self.parked)
    }

    /// What holds while outputs are connected.
    pub open spec fn shown_state(self) -> bool {
        let strip = self.strip(self.monitors.len() as int);
        &&& self.parked.len() == 0
        &&& self.primary < self.monitors.len()
        &&& self.focused < self.monitors.len()
        &&& forall|m: int|
            0 <= m < self.monitors.len() ==> self.monitor_sound(#[trigger] self.monitors[m])
        &&& forall|m: int|
            0 <= m < self.monitors.len() ==> match self.active_view(
                (#[trigger] self.monitors[m]).output.id,
            ) {
                Some(v) => self.homes_sound(m, v.ids),
                None => false,
            }
        &&& self.slides_agree()
        &&& strip.no_duplicates()
        &&& self.names_distinct(strip)
        &&& self.dnd is None && self.moving is None ==> self.slides_alone(strip)
    }

    /// What the checks ask: what every operation keeps, as `soundness` shows, and rules on names,
    /// routes, swipes, grabbed windows and bookmarks.
    pub open spec fn sound(self) -> bool {
        &&& self.move_sound()
        &&& self.acts_sound()
        &&& self.bookmarks_sound()
        &&& forall|i: int|
            0 <= i < self.pool.items.len() ==> self.member_sound(#[trigger] self.pool.items[i])
        &&& forall|i: int|
            0 <= i < self.acts.list.len() ==> self.activity_sound(#[trigger] self.acts.list[i])
        &&& self.parked_sound()
        &&& forall|i: int|
            0 <= i < self.pool.items.len() ==> self.anchored(#[trigger] self.pool.items[i])
        &&& if self.monitors.len() == 0 {
            self.parked_state()
        } else {
            self.shown_state()
        }
    }
}

/// Whether two bookmarks share a number, a window or a key.
pub open spec fn clash(a: Bookmark, b: Bookmark) -> bool {
    a.id == b.id || (a.window is Some && a.window == b.window) || (a.key is Some && a.key == b.key)
}

/// Whether two bookmarks share a number, a window or a key.
fn do_clash(a: &Bookmark, b: &Bookmark) -> (r: bool)
    ensures
        r == clash(*a, *b),
{
    let windows = match (a.window, b.window) {
        (Some(x), Some(y)) => x == y,
        _ => false,
    };
    let keys = match (a.key, b.key) {
        (Some(x), Some(y)) => x == y,
        _ => false,
    };
    a.id == b.id || windows || keys
}

/// Whether no workspace occurs twice in `ids`.
fn no_repeats(ids: &Vec<WorkspaceId>) -> (b: bool)
    ensures
        b == ids@.no_duplicates(),
{
    let mut i: usize = 0;
    while i < ids.len()
        invariant
            i <= ids@.len(),
            forall|x: int, y: int|
                0 <= x < i && x < y < ids@.len() ==> (#[trigger] ids@[x]) != (#[trigger] ids@[y]),
        decreases ids@.len() - i,
    {
        let mut j: usize = i + 1;
        while j < ids.len()
            invariant
                i < j <= ids@.len(),
                forall|y: int| i < y < j ==> ids@[i as int] != #[trigger] ids@[y],
            decreases ids@.len() - j,
        {
            if ids[i] == ids[j] {
                assert(!ids@.no_duplicates());
                return false;
            }
            j = j + 1;
        }
        i = i + 1;
    }
    true
}

/// Whether no activity occurs twice in `ids`.
fn no_twins(ids: &Vec<ActivityId>) -> (b: bool)
    ensures
        b == ids@.no_duplicates(),
{
    let mut i: usize = 0;
    while i < ids.len()
        invariant
            i <= ids@.len(),
            forall|x: int, y: int|
                0 <= x < i && x < y < ids@.len() ==> (#[trigger] ids@[x]) != (#[trigger] ids@[y]),
        decreases ids@.len() - i,
    {
        let mut j: usize = i + 1;
        while j < ids.len()
            invariant
                i < j <= ids@.len(),
                forall|y: int| i < y < j ==> ids@[i as int] != #[trigger] ids@[y],
            decreases ids@.len() - j,
        {
            if ids[i] == ids[j] {
                assert(!ids@.no_duplicates());
                return false;
            }
            j = j + 1;
        }
        i = i + 1;
    }
    true
}

impl WorkspaceView {
    /// Whether the view is usable.
    fn is_sound(&self) -> (b: bool)
        ensures
            b == self@.wf(),
    {
        self.len() > 0 && no_repeats(self.ids()) && self.contains(self.active()) && match
            self.previous() {
            Some(p) => self.contains(p),
            None => true,
        }
    }
}

impl WorkspacePool {
    /// Whether workspaces `a` and `b` have the same name up to case.
    fn are_namesakes(&self, a: WorkspaceId, b: WorkspaceId) -> (r: bool)
        ensures
            r == namesakes(self@, a, b),
    {
        match (self.get(a), self.get(b)) {
            (Some(x), Some(y)) => match (&x.name, &y.name) {
                (Some(m), Some(n)) => eq_ignore_ascii_case(m.as_str(), n.as_str()),
                _ => false,
            },
            _ => false,
        }
    }

    /// Whether the user swipes along workspace `id`.
    fn is_slid(&self, id: WorkspaceId) -> (r: bool)
        ensures
            r == is_slid(self@, id),
    {
        match self.get(id) {
            Some(w) => w.view_gesture.is_some(),
            None => false,
        }
    }

    /// Whether `v` has its bookends.
    fn is_bookended(&self, v: &WorkspaceView, leading: bool) -> (r: bool)
        ensures
            r == bookended(self@, v@, leading),
    {
        let n: usize = v.len();
        n > 0 && !self.is_busy(v.id_at(n - 1)) && (!leading || (!self.is_busy(v.id_at(0)) && (n != 2
            || self.is_shared(v.id_at(1)))))
    }
}

impl Layout {
    /// Whether window `window` is anywhere in the layout.
    pub fn has_window(&self, window: WindowId) -> (b: bool)
        ensures
            b == self@.has_window(window),
    {
        self.is_dragged(window) || self.home_of(window).is_some()
    }

    fn move_is_sound(&self) -> (b: bool)
        ensures
            b == self@.move_sound(),
    {
        match self.interactive_move {
            Some(InteractiveMoveState::Starting { window_id }) => self.has_window(window_id),
            Some(InteractiveMoveState::Moving(d)) => d.tile.window.pending_sizing_mode.is_normal(),
            None => true,
        }
    }

    fn acts_are_sound(&self) -> (b: bool)
        ensures
            b == self@.acts_sound(),
    {
        let viewed = match self.activities.get(self.activities.active) {
            Some(a) => a.views.len() == self.monitors.len(),
            None => false,
        };
        no_twins(&self.activities.ids()) && viewed && match self.activities.previous {
            Some(p) => self.activities.contains(p) && p != self.activities.active,
            None => true,
        }
    }

    fn bookmarks_are_sound(&self) -> (b: bool)
        ensures
            b == self@.bookmarks_sound(),
    {
        let n: usize = self.bookmarks.list.len();
        if let Some(c) = self.bookmarks.walk_cursor {
            if c >= n {
                return false;
            }
        }
        if let Some(b) = self.bookmarks.last_visited {
            if b >= self.bookmarks.next_id {
                return false;
            }
        }
        if let Some(w) = self.bookmarks.return_target {
            if !self.has_window(w) {
                return false;
            }
        }
        self.bookmark_list_is_sound()
    }

    fn bookmark_list_is_sound(&self) -> (b: bool)
        ensures
            b == ((forall|i: int|
                0 <= i < self@.bookmarks.list.len() ==> self@.bookmark_sound(
                    #[trigger] self@.bookmarks.list[i],
                )) && (forall|i: int, j: int|
                0 <= i < j < self@.bookmarks.list.len() ==> !clash(
                    #[trigger] self@.bookmarks.list[i],
                    #[trigger] self@.bookmarks.list[j],
                ))),
    {
        let ghost list = self@.bookmarks.list;
        let n: usize = self.bookmarks.list.len();
        let mut i: usize = 0;
        while i < n
            invariant
                i <= n,
                n == list.len(),
                list == self@.bookmarks.list,
                forall|x: int| 0 <= x < i ==> self@.bookmark_sound(#[trigger] list[x]),
                forall|x: int, y: int|
                    0 <= x < i && x < y < n ==> !clash(#[trigger] list[x], #[trigger] list[y]),
            decreases n - i,
        {
            let b = self.bookmarks.list[i];
            let led = match b.window {
                Some(w) => self.has_window(w),
                None => true,
            };
            if b.id >= self.bookmarks.next_id || !led {
                assert(!self@.bookmark_sound(list[i as int]));
                return false;
            }
            let mut j: usize = i + 1;
            while j < n
                invariant
                    i < j <= n,
                    n == list.len(),
                    b == list[i as int],
                    list == self@.bookmarks.list,
                    forall|y: int| i < y < j ==> !clash(list[i as int], #[trigger] list[y]),
                decreases n - j,
            {
                if do_clash(&b, &self.bookmarks.list[j]) {
                    assert(clash(list[i as int], list[j as int]));
                    return false;
                }
                j = j + 1;
            }
            i = i + 1;
        }
        true
    }

    fn member_is_sound(&self, w: &Workspace) -> (b: bool)
        ensures
            b == self@.member_sound(w@),
    {
        let n: usize = w.activities.len();
        let mut j: usize = 0;
        while j < n
            invariant
                j <= n,
                n == w@.activities.len(),
                forall|x: int| 0 <= x < j ==> self@.acts.has(#[trigger] w@.activities[x]),
            decreases n - j,
        {
            if !self.activities.contains(w.activities[j]) {
                assert(!self@.acts.has(w@.activities[j as int]));
                return false;
            }
            j = j + 1;
        }
        n > 0
    }

    fn shows_in(&self, act: ActivityId, id: WorkspaceId) -> (b: bool)
        ensures
            b == self@.shows_in(act, id),
    {
        match self.activities.get(act) {
            Some(a) => a.output_of(id).is_some(),
            None => false,
        }
    }

    fn is_anchored_somewhere(&self, w: &Workspace) -> (b: bool)
        ensures
            b == self@.anchored(w@),
    {
        if self.is_parked(w.id) {
            return true;
        }
        if self.workspace_holding_output(w.id).is_none() {
            return false;
        }
        let n: usize = w.activities.len();
        let mut j: usize = 0;
        while j < n
            invariant
                j <= n,
                n == w@.activities.len(),
                !self@.parked.contains(w@.id),
                forall|x: int| 0 <= x < j ==> self@.shows_in(#[trigger] w@.activities[x], w@.id),
            decreases n - j,
        {
            if !self.shows_in(w.activities[j], w.id) {
                assert(!self@.shows_in(w@.activities[j as int], w@.id));
                return false;
            }
            j = j + 1;
        }
        true
    }

    fn members_are_sound(&self) -> (b: bool)
        ensures
            b == ((forall|i: int|
                0 <= i < self@.pool.items.len() ==> self@.member_sound(
                    #[trigger] self@.pool.items[i],
                )) && (forall|i: int|
                0 <= i < self@.pool.items.len() ==> self@.anchored(#[trigger] self@.pool.items[i]))),
    {
        let ghost items = self@.pool.items;
        let n: usize = self.workspaces.items.len();
        let mut i: usize = 0;
        while i < n
            invariant
                i <= n,
                n == self.workspaces.items@.len(),
                n == items.len(),
                items == self@.pool.items,
                forall|x: int| 0 <= x < i ==> self@.member_sound(#[trigger] items[x]),
                forall|x: int| 0 <= x < i ==> self@.anchored(#[trigger] items[x]),
            decreases n - i,
        {
            assert(items[i as int] == self.workspaces.items@[i as int]@);
            if !self.member_is_sound(&self.workspaces.items[i]) {
                assert(!self@.member_sound(items[i as int]));
                return false;
            }
            if !self.is_anchored_somewhere(&self.workspaces.items[i]) {
                assert(!self@.anchored(items[i as int]));
                return false;
            }
            i = i + 1;
        }
        true
    }

    pub(crate) fn is_member(&self, act: ActivityId, id: WorkspaceId) -> (b: bool)
        ensures
            b == self@.is_member(act, id),
    {
        match self.workspaces.get(id) {
            Some(w) => lists(&w.activities, act),
            None => false,
        }
    }

    fn entry_is_sound(&self, act: ActivityId, e: &ViewEntry) -> (b: bool)
        ensures
            b == self@.entry_sound(act, e@),
    {
        if !e.view.is_sound() || self.monitor_idx(e.output).is_none() {
            return false;
        }
        let n: usize = e.view.len();
        let mut k: usize = 0;
        while k < n
            invariant
                k <= n,
                n == e@.view.ids.len(),
                forall|x: int| 0 <= x < k ==> self@.is_member(act, #[trigger] e@.view.ids[x]),
            decreases n - k,
        {
            if !self.is_member(act, e.view.id_at(k)) {
                assert(!self@.is_member(act, e@.view.ids[k as int]));
                return false;
            }
            k = k + 1;
        }
        true
    }

    #[verifier::loop_isolation(false)]
    fn activity_is_sound(&self, a: &Activity) -> (b: bool)
        ensures
            b == self@.activity_sound(a@),
    {
        let ghost views = a@.views;
        let n: usize = a.views.len();
        let mut i: usize = 0;
        while i < n
            invariant
                i <= n,
                n == a.views@.len(),
                n == views.len(),
                views == a@.views,
                forall|x: int| 0 <= x < i ==> self@.entry_sound(a@.id, #[trigger] views[x]),
                forall|x: int, y: int|
                    0 <= x < i && x < y < n ==> (#[trigger] views[x]).output != (
                    #[trigger] views[y]).output,
            decreases n - i,
        {
            assert(views[i as int] == a.views@[i as int]@);
            if !self.entry_is_sound(a.id, &a.views[i]) {
                assert(!self@.entry_sound(a@.id, views[i as int]));
                return false;
            }
            let mut j: usize = i + 1;
            while j < n
                invariant
                    i < j <= n,
                    forall|y: int| i < y < j ==> views[i as int].output != (#[trigger] views[y]).output,
                decreases n - j,
            {
                assert(views[j as int] == a.views@[j as int]@);
                if a.views[i].output == a.views[j].output {
                    assert(views[i as int].output == views[j as int].output);
                    return false;
                }
                j = j + 1;
            }
            i = i + 1;
        }
        let mut m: usize = 0;
        while m < self.monitors.len()
            invariant
                m <= self.monitors@.len(),
                forall|x: int|
                    0 <= x < m ==> a@.view_of((#[trigger] self@.monitors[x]).output.id) is Some,
            decreases self.monitors@.len() - m,
        {
            if a.view_on(self.monitors[m].output.id).is_none() {
                assert(a@.view_of(self@.monitors[m as int].output.id) is None);
                return false;
            }
            m = m + 1;
        }
        true
    }

    fn activities_are_sound(&self) -> (b: bool)
        ensures
            b == forall|i: int|
                0 <= i < self@.acts.list.len() ==> self@.activity_sound(#[trigger] self@.acts.list[i]),
    {
        let ghost list = self@.acts.list;
        let n: usize = self.activities.list.len();
        let mut i: usize = 0;
        while i < n
            invariant
                i <= n,
                n == self.activities.list@.len(),
                n == list.len(),
                list == self@.acts.list,
                forall|x: int| 0 <= x < i ==> self@.activity_sound(#[trigger] list[x]),
            decreases n - i,
        {
            assert(list[i as int] == self.activities.list@[i as int]@);
            if !self.activity_is_sound(&self.activities.list[i]) {
                assert(!self@.activity_sound(list[i as int]));
                return false;
            }
            i = i + 1;
        }
        true
    }

    fn parked_are_sound(&self) -> (b: bool)
        ensures
            b == self@.parked_sound(),
    {
        if !no_repeats(&self.disconnected_workspace_ids) {
            return false;
        }
        let n: usize = self.disconnected_workspace_ids.len();
        let mut i: usize = 0;
        while i < n
            invariant
                i <= n,
                n == self.disconnected_workspace_ids@.len(),
                forall|x: int|
                    0 <= x < i ==> self@.pool.has(#[trigger] self@.parked[x]) && !self@.is_shown(
                        self@.parked[x],
                    ),
            decreases n - i,
        {
            let id = self.disconnected_workspace_ids[i];
            if !self.workspaces.contains(id) || self.workspace_holding_output(id).is_some() {
                assert(!self@.pool.has(self@.parked[i as int]) || self@.is_shown(
                    self@.parked[i as int],
                ));
                return false;
            }
            i = i + 1;
        }
        true
    }

    fn names_are_distinct(&self, ids: &Vec<WorkspaceId>) -> (b: bool)
        ensures
            b == self@.names_distinct(ids@),
    {
        let mut i: usize = 0;
        while i < ids.len()
            invariant
                i <= ids@.len(),
                forall|x: int, y: int|
                    0 <= x < i && x < y < ids@.len() ==> !namesakes(
                        self@.pool,
                        #[trigger] ids@[x],
                        #[trigger] ids@[y],
                    ),
            decreases ids@.len() - i,
        {
            let mut j: usize = i + 1;
            while j < ids.len()
                invariant
                    i < j <= ids@.len(),
                    forall|y: int|
                        i < y < j ==> !namesakes(self@.pool, ids@[i as int], #[trigger] ids@[y]),
                decreases ids@.len() - j,
            {
                if self.workspaces.are_namesakes(ids[i], ids[j]) {
                    assert(namesakes(self@.pool, ids@[i as int], ids@[j as int]));
                    return false;
                }
                j = j + 1;
            }
            i = i + 1;
        }
        true
    }

    fn slides_are_alone(&self, ids: &Vec<WorkspaceId>) -> (b: bool)
        ensures
            b == self@.slides_alone(ids@),
    {
        let mut seen: Option<usize> = None;
        let mut i: usize = 0;
        while i < ids.len()
            invariant
                i <= ids@.len(),
                match seen {
                    Some(s) => s < i && is_slid(self@.pool, ids@[s as int]) && forall|x: int|
                        0 <= x < i && x != s ==> !is_slid(self@.pool, #[trigger] ids@[x]),
                    None => forall|x: int|
                        0 <= x < i ==> !is_slid(self@.pool, #[trigger] ids@[x]),
                },
            decreases ids@.len() - i,
        {
            if self.workspaces.is_slid(ids[i]) {
                if let Some(s) = seen {
                    assert(is_slid(self@.pool, ids@[s as int]) && is_slid(
                        self@.pool,
                        ids@[i as int],
                    ));
                    return false;
                }
                seen = Some(i);
            }
            i = i + 1;
        }
        true
    }

    /// The workspaces that the monitors show, in order.
    pub(crate) fn strip(&self) -> (ids: Vec<WorkspaceId>)
        ensures
            ids@ == self@.strip(self@.monitors.len() as int),
    {
        let mut all: Vec<WorkspaceId> = Vec::new();
        let mut m: usize = 0;
        while m < self.monitors.len()
            invariant
                m <= self.monitors@.len(),
                all@ == self@.strip(m as int),
            decreases self.monitors@.len() - m,
        {
            let ghost before = all@;
            if let Some(v) = self.activities.view_on(
                self.activities.active,
                self.monitors[m].output.id,
            ) {
                let n: usize = v.len();
                let mut k: usize = 0;
                assert(before + v@.ids.take(0) =~= before);
                while k < n
                    invariant
                        k <= n,
                        n == v@.ids.len(),
                        all@ == before + v@.ids.take(k as int),
                    decreases n - k,
                {
                    all.push(v.id_at(k));
                    k = k + 1;
                    assert(all@ =~= before + v@.ids.take(k as int));
                }
                assert(v@.ids.take(k as int) =~= v@.ids);
            } else {
                assert(before + Seq::<WorkspaceId>::empty() =~= before);
            }
            m = m + 1;
        }
        all
    }

    fn is_owned_on(&self, id: WorkspaceId, output: &Output) -> (b: bool)
        ensures
            b == self@.is_owned_on(id, *output),
    {
        match self.workspaces.get(id) {
            Some(w) => match w.output_id {
                Some(out) => out.matches(output),
                None => false,
            },
            None => false,
        }
    }

    fn has_own_monitor(&self, id: WorkspaceId) -> (b: bool)
        ensures
            b == self@.has_own_monitor(id),
    {
        let mut m: usize = 0;
        while m < self.monitors.len()
            invariant
                m <= self.monitors@.len(),
                forall|x: int|
                    0 <= x < m ==> !self@.is_owned_on(id, (#[trigger] self@.monitors[x]).output),
            decreases self.monitors@.len() - m,
        {
            if self.is_owned_on(id, &self.monitors[m].output) {
                assert(self@.is_owned_on(id, self@.monitors[m as int].output));
                return true;
            }
            m = m + 1;
        }
        false
    }

    fn homes_are_sound(&self, m: usize, ids: &Vec<WorkspaceId>) -> (b: bool)
        requires
            m < self@.monitors.len(),
        ensures
            b == self@.homes_sound(m as int, ids@),
    {
        let output = self.monitors[m].output;
        let mut k: usize = 0;
        if m == self.primary_idx {
            while k < ids.len()
                invariant
                    k <= ids@.len(),
                    output == self@.monitors[m as int].output,
                    m == self@.primary,
                    forall|x: int|
                        0 <= x < k ==> self@.is_owned_on(#[trigger] ids@[x], output)
                            || !self@.has_own_monitor(ids@[x]),
                decreases ids@.len() - k,
            {
                if !self.is_owned_on(ids[k], &output) && self.has_own_monitor(ids[k]) {
                    assert(!self@.is_owned_on(ids@[k as int], output));
                    return false;
                }
                k = k + 1;
            }
            true
        } else {
            while k < ids.len()
                invariant
                    k <= ids@.len(),
                    output == self@.monitors[m as int].output,
                    m != self@.primary,
                    forall|x: int| 0 <= x < k ==> !self@.is_owned_on(#[trigger] ids@[x], output),
                decreases ids@.len() - k,
            {
                if self.is_owned_on(ids[k], &output) {
                    assert(self@.is_owned_on(ids@[k as int], output));
                    return true;
                }
                k = k + 1;
            }
            false
        }
    }

    fn bookends_are_sound(&self, out: OutputId, leading: bool) -> (b: bool)
        ensures
            b == self@.bookends_sound(out, leading),
    {
        let ghost list = self@.acts.list;
        let mut i: usize = 0;
        while i < self.activities.list.len()
            invariant
                i <= self.activities.list@.len(),
                list == self@.acts.list,
                forall|x: int|
                    0 <= x < i ==> match (#[trigger] list[x]).view_of(out) {
                        Some(v) => bookended(self@.pool, v, leading),
                        None => true,
                    },
            decreases self.activities.list@.len() - i,
        {
            assert(list[i as int] == self.activities.list@[i as int]@);
            if let Some(v) = self.activities.list[i].view_on(out) {
                if !self.workspaces.is_bookended(v, leading) {
                    assert(list[i as int].view_of(out) == Some(v@));
                    return false;
                }
            }
            i = i + 1;
        }
        true
    }

    fn monitor_is_sound(&self, m: &Monitor) -> (b: bool)
        ensures
            b == self@.monitor_sound(*m),
    {
        let slides = match m.activity_switch {
            Some(s) => self.activities.contains(s.from) && s.from != self.activities.active
                && !self.overview_open,
            None => true,
        };
        m.overview_open == self.overview_open && slides && self.bookends_are_sound(
            m.output.id,
            m.empty_workspace_above_first,
        )
    }

    fn slides_do_agree(&self) -> (b: bool)
        ensures
            b == self@.slides_agree(),
    {
        let mut i: usize = 0;
        while i < self.monitors.len()
            invariant
                i <= self.monitors@.len(),
                forall|x: int, y: int|
                    0 <= x < i && x < y < self@.monitors.len() && (
                    #[trigger] self@.monitors[x]).activity_switch is Some && (
                    #[trigger] self@.monitors[y]).activity_switch is Some
                        ==> self@.monitors[x].activity_switch == self@.monitors[y].activity_switch,
            decreases self.monitors@.len() - i,
        {
            let mut j: usize = i + 1;
            while j < self.monitors.len()
                invariant
                    i < j <= self.monitors@.len(),
                    forall|y: int|
                        i < y < j && self@.monitors[i as int].activity_switch is Some && (
                        #[trigger] self@.monitors[y]).activity_switch is Some
                            ==> self@.monitors[i as int].activity_switch
                            == self@.monitors[y].activity_switch,
                decreases self.monitors@.len() - j,
            {
                if let (Some(a), Some(b)) = (
                    self.monitors[i].activity_switch,
                    self.monitors[j].activity_switch,
                ) {
                    if a.from != b.from || a.dir != b.dir {
                        assert(self@.monitors[i as int].activity_switch
                            != self@.monitors[j as int].activity_switch);
                        return false;
                    }
                }
                j = j + 1;
            }
            i = i + 1;
        }
        true
    }

    fn parked_state_holds(&self) -> (b: bool)
        ensures
            b == self@.parked_state(),
    {
        if self.primary_idx != 0 || self.active_monitor_idx != 0 {
            return false;
        }
        let n: usize = self.disconnected_workspace_ids.len();
        let mut i: usize = 0;
        while i < n
            invariant
                i <= n,
                n == self.disconnected_workspace_ids@.len(),
                forall|x: int| 0 <= x < i ==> self@.pool.busy(#[trigger] self@.parked[x]),
            decreases n - i,
        {
            if !self.workspaces.is_busy(self.disconnected_workspace_ids[i]) {
                assert(!self@.pool.busy(self@.parked[i as int]));
                return false;
            }
            i = i + 1;
        }
        self.names_are_distinct(&self.disconnected_workspace_ids)
    }

    fn monitors_are_sound(&self) -> (b: bool)
        ensures
            b == ((forall|m: int|
                0 <= m < self@.monitors.len() ==> self@.monitor_sound(#[trigger] self@.monitors[m]))
                && (forall|m: int|
                0 <= m < self@.monitors.len() ==> match self@.active_view(
                    (#[trigger] self@.monitors[m]).output.id,
                ) {
                    Some(v) => self@.homes_sound(m, v.ids),
                    None => false,
                })),
    {
        let mut i: usize = 0;
        while i < self.monitors.len()
            invariant
                i <= self.monitors@.len(),
                forall|m: int| 0 <= m < i ==> self@.monitor_sound(#[trigger] self@.monitors[m]),
                forall|m: int|
                    0 <= m < i ==> match self@.active_view(
                        (#[trigger] self@.monitors[m]).output.id,
                    ) {
                        Some(v) => self@.homes_sound(m, v.ids),
                        None => false,
                    },
            decreases self.monitors@.len() - i,
        {
            if !self.monitor_is_sound(&self.monitors[i]) {
                assert(!self@.monitor_sound(self@.monitors[i as int]));
                return false;
            }
            let out = self.monitors[i].output.id;
            let homes = match self.activities.view_on(self.activities.active, out) {
                Some(v) => self.homes_are_sound(i, v.ids()),
                None => false,
            };
            if !homes {
                assert(self@.monitors[i as int].output.id == out);
                return false;
            }
            i = i + 1;
        }
        true
    }

    fn shown_state_holds(&self) -> (b: bool)
        ensures
            b == self@.shown_state(),
    {
        if self.disconnected_workspace_ids.len() != 0 || self.primary_idx >= self.monitors.len()
            || self.active_monitor_idx >= self.monitors.len() {
            return false;
        }
        let strip = self.strip();
        self.monitors_are_sound() && self.slides_do_agree() && no_repeats(&strip)
            && self.names_are_distinct(&strip) && (self.dnd.is_some()
            || self.interactive_move.is_some() || self.slides_are_alone(&strip))
    }

    /// Whether the layout passes its checks.
    pub fn verify_invariants(&self) -> (b: bool)
        ensures
            b == self@.sound(),
    {
        self.move_is_sound() && self.acts_are_sound() && self.bookmarks_are_sound()
            && self.members_are_sound() && self.activities_are_sound() && self.parked_are_sound() && (
        if self.monitors.len() == 0 {
            self.parked_state_holds()
        } else {
            self.shown_state_holds()
        })
    }
}

} // verus!
