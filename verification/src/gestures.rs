//! Swipes between workspaces and along a workspace, and the work that follows every event.

use vstd::prelude::*;

use crate::ids::{OutputId, WorkspaceId};
use crate::layout::{InteractiveMoveState, Layout, LayoutModel};
use crate::monitor::{Monitor, WorkspaceSwitch};
use crate::pool::{PoolModel, WorkspacePool};
use crate::workspace::{Output, WorkspaceModel};

verus! {

/// How far a swipe between workspaces has come.
#[derive(Clone, Copy, Debug, PartialEq, Eq, Structural)]
pub struct Reached {
    /// The position, rounded down to a whole workspace.
    pub at: i64,
    /// Whether it is part of the way to the next one.
    pub between: bool,
}

/// The predicate that picks the monitor on which the user swipes, on a touchpad or not.
pub open spec fn swiped_by(is_touchpad: Option<bool>) -> spec_fn(Monitor) -> bool {
    |m: Monitor|
        match m.workspace_switch {
            Some(WorkspaceSwitch::Gesture { target: _, between: _, is_touchpad: t }) => is_touchpad is None
                || is_touchpad == Some(t),
            _ => false,
        }
}

/// The predicate that picks a workspace along which the user swipes, on a touchpad or not.
pub open spec fn slid_by(pool: PoolModel, is_touchpad: Option<bool>) -> spec_fn(WorkspaceId) -> bool {
    |id: WorkspaceId|
        match pool.get(id) {
            Some(w) => w.view_gesture is Some && (is_touchpad is None || is_touchpad
                == w.view_gesture),
            None => false,
        }
}

impl PoolModel {
    /// A swipe along workspace `id` under way, or none.
    pub open spec fn set_gesture(self, id: WorkspaceId, g: Option<bool>) -> PoolModel {
        match self.get(id) {
            Some(w) => self.put(id, WorkspaceModel { view_gesture: g, ..w }),
            None => self,
        }
    }

    /// No swipe along the workspaces `ids` but for the one at `keep`, along which `g` is under way.
    pub open spec fn set_gestures(self, ids: Seq<WorkspaceId>, keep: Option<int>, g: bool) -> PoolModel
        decreases ids.len(),
    {
        if ids.len() == 0 {
            self
        } else {
            let at = ids.len() - 1;
            self.set_gestures(ids.drop_last(), keep, g).set_gesture(
                ids.last(),
                if keep == Some(at) {
                    Some(g)
                } else {
                    None
                },
            )
        }
    }

    /// The view of workspace `id` held still, or let go.
    pub open spec fn set_lock(self, id: WorkspaceId, lock: bool) -> PoolModel {
        match self.get(id) {
            Some(w) => self.put(id, WorkspaceModel { scroll_lock: lock, ..w }),
            None => self,
        }
    }

    /// The views of the workspaces `ids` held still, or let go; without a word on that, swipes
    /// along all but the one at `active` end.
    pub open spec fn attend(self, ids: Seq<WorkspaceId>, active: int, lock: Option<bool>, overview: bool) -> PoolModel
        decreases ids.len(),
    {
        if ids.len() == 0 {
            self
        } else {
            let p = self.attend(ids.drop_last(), active, lock, overview);
            match lock {
                Some(b) => p.set_lock(ids.last(), b),
                None => if !overview && ids.len() - 1 != active {
                    p.set_gesture(ids.last(), None)
                } else {
                    p
                },
            }
        }
    }

    /// No swipe along any of the workspaces `ids`.
    pub open spec fn still(self, ids: Seq<WorkspaceId>) -> PoolModel
        decreases ids.len(),
    {
        if ids.len() == 0 {
            self
        } else {
            self.still(ids.drop_last()).set_gesture(ids.last(), None)
        }
    }
}

impl LayoutModel {
    /// The swipe on monitor `mon`, if there is one, let go towards the workspace at `idx`, which
    /// becomes active.
    pub open spec fn end_swipe(self, mon: int, idx: int) -> LayoutModel {
        let m = self.monitors[mon];
        match (m.workspace_switch, self.active_view(m.output.id)) {
            (Some(WorkspaceSwitch::Gesture { target: _, between: _, is_touchpad: _ }), Some(v)) =>
                if idx < v.ids.len() && idx <= i64::MAX {
                    let s = self.with_view(self.acts.active, m.output.id, v.activate(idx));
                    LayoutModel {
                        monitors: s.monitors.update(
                            mon,
                            Monitor {
                                workspace_switch: Some(
                                    WorkspaceSwitch::Animation { target: idx as i64 },
                                ),
                                ..m
                            },
                        ),
                        ..s
                    }
                } else {
                    self
                },
            _ => self,
        }
    }

    /// A swipe under way on monitor `mon`, at position `reached`.
    pub open spec fn swipe(self, mon: int, reached: Reached, is_touchpad: bool) -> LayoutModel {
        LayoutModel {
            monitors: self.monitors.update(
                mon,
                Monitor {
                    workspace_switch: Some(
                        WorkspaceSwitch::Gesture {
                            target: reached.at,
                            between: reached.between,
                            is_touchpad,
                        },
                    ),
                    ..self.monitors[mon]
                },
            ),
            ..self
        }
    }

    /// A swipe begun on output `out` at position `reached`, and those on the first `n` other
    /// monitors let go towards the workspaces at `landings`.
    pub open spec fn begin_swipe(
        self,
        out: OutputId,
        is_touchpad: bool,
        reached: Reached,
        landings: Seq<usize>,
        n: int,
    ) -> LayoutModel
        decreases n,
    {
        if n <= 0 {
            self
        } else {
            let s = self.begin_swipe(out, is_touchpad, reached, landings, n - 1);
            if s.monitors[n - 1].output.id == out {
                s.swipe(n - 1, reached, is_touchpad)
            } else {
                s.end_swipe(n - 1, landings[n - 1] as int)
            }
        }
    }

    /// A swipe begun along the workspace at `idx` of output `out`, or along the active one, and
    /// ended along every other one that the first `n` monitors show.
    pub open spec fn begin_slide(self, out: OutputId, idx: Option<int>, is_touchpad: bool, n: int) -> LayoutModel
        decreases n,
    {
        if n <= 0 {
            self
        } else {
            let s = self.begin_slide(out, idx, is_touchpad, n - 1);
            let m = s.monitors[n - 1];
            match s.active_view(m.output.id) {
                Some(v) => LayoutModel {
                    pool: s.pool.set_gestures(
                        v.ids,
                        if m.output.id != out {
                            None
                        } else if idx is Some {
                            idx
                        } else {
                            Some(v.active_position())
                        },
                        is_touchpad,
                    ),
                    ..s
                },
                None => s,
            }
        }
    }

    /// The predicate that picks a monitor that shows a workspace along which the user swipes.
    pub open spec fn showing_slide(self, is_touchpad: Option<bool>) -> spec_fn(Monitor) -> bool {
        |m: Monitor|
            match self.active_view(m.output.id) {
                Some(v) => crate::search::find(v.ids, slid_by(self.pool, is_touchpad)) is Some,
                None => false,
            }
    }

    /// The workspace along which the user swipes, and the index of the monitor that shows it.
    pub open spec fn sliding(self, is_touchpad: Option<bool>) -> Option<(int, WorkspaceId)> {
        match crate::search::find(self.monitors, self.showing_slide(is_touchpad)) {
            Some(m) => {
                let ids = self.active_view(self.monitors[m].output.id).unwrap().ids;
                let k = crate::search::find(ids, slid_by(self.pool, is_touchpad)).unwrap();
                Some((m, ids[k]))
            },
            None => None,
        }
    }

    /// Whether a drag is under way, and if so whether it holds the views of workspaces still: a
    /// drag-and-drop does, and so does the drag of a window that does not float.
    pub open spec fn drag_lock(self) -> Option<bool> {
        if self.dnd is Some {
            Some(true)
        } else {
            match self.moving {
                Some(InteractiveMoveState::Moving(d)) => Some(!d.tile.floating),
                Some(InteractiveMoveState::Starting { window_id }) => Some(
                    !self.floats_at_home(window_id),
                ),
                None => None,
            }
        }
    }

    /// Monitor `m` after an event: a drag scrolls its strip in the overview and only there.
    pub open spec fn attended(self, m: Monitor) -> Monitor {
        if self.overview_open {
            if self.drag_lock() is Some {
                Monitor { dnd_scroll: true, ..m }
            } else {
                m
            }
        } else {
            Monitor { dnd_scroll: false, ..m }
        }
    }

    /// The first `n` monitors and what they show after an event.
    pub open spec fn attend(self, n: int) -> LayoutModel
        decreases n,
    {
        if n <= 0 {
            self
        } else {
            let s = self.attend(n - 1);
            let m = s.monitors[n - 1];
            LayoutModel {
                monitors: s.monitors.update(n - 1, self.attended(m)),
                pool: match s.active_view(m.output.id) {
                    Some(v) => s.pool.attend(
                        v.ids,
                        v.active_position(),
                        self.drag_lock(),
                        self.overview_open,
                    ),
                    None => s.pool,
                },
                ..s
            }
        }
    }

    /// The layout after an event.
    pub open spec fn refresh(self, is_active: bool) -> LayoutModel {
        let s = self.attend(self.monitors.len() as int);
        LayoutModel { is_active, pool: s.pool.still(s.parked), ..s }
    }
}

impl WorkspacePool {
    /// Notes a swipe along workspace `id`, or its end.
    fn set_gesture(&mut self, id: WorkspaceId, g: Option<bool>)
        ensures
            final(self)@ == old(self)@.set_gesture(id, g),
            final(self).next_id == old(self).next_id,
    {
        if let Some(p) = self.position(id) {
            self.items[p].view_gesture = g;
            assert(self@.items =~= old(self)@.set_gesture(id, g).items);
        }
    }

    /// Ends the swipes along the workspaces `ids` but for the one at `keep`, along which one
    /// begins.
    fn set_gestures(&mut self, ids: &Vec<WorkspaceId>, keep: Option<usize>, g: bool)
        ensures
            final(self)@ == old(self)@.set_gestures(ids@, crate::moves::opt_int(keep), g),
            final(self).next_id == old(self).next_id,
    {
        let ghost start = self@;
        let mut i: usize = 0;
        while i < ids.len()
            invariant
                i <= ids@.len(),
                self.next_id == old(self).next_id,
                self@ == start.set_gestures(
                    ids@.take(i as int),
                    crate::moves::opt_int(keep),
                    g,
                ),
            decreases ids@.len() - i,
        {
            assert(ids@.take(i + 1).drop_last() =~= ids@.take(i as int));
            let here = match keep {
                Some(k) => k == i,
                None => false,
            };
            self.set_gesture(
                ids[i],
                if here {
                    Some(g)
                } else {
                    None
                },
            );
            i = i + 1;
        }
        assert(ids@.take(i as int) =~= ids@);
    }

    /// Holds the view of workspace `id` still, or lets it go.
    fn set_lock(&mut self, id: WorkspaceId, lock: bool)
        ensures
            final(self)@ == old(self)@.set_lock(id, lock),
            final(self).next_id == old(self).next_id,
    {
        if let Some(p) = self.position(id) {
            self.items[p].scroll_lock = lock;
            assert(self@.items =~= old(self)@.set_lock(id, lock).items);
        }
    }

    /// Holds the views of the workspaces `ids` still or lets them go; without a word on that, ends
    /// the swipes along all but the one at `active`.
    fn attend(&mut self, ids: &Vec<WorkspaceId>, active: usize, lock: Option<bool>, overview: bool)
        ensures
            final(self)@ == old(self)@.attend(ids@, active as int, lock, overview),
            final(self).next_id == old(self).next_id,
    {
        let ghost start = self@;
        let mut i: usize = 0;
        while i < ids.len()
            invariant
                i <= ids@.len(),
                self.next_id == old(self).next_id,
                self@ == start.attend(ids@.take(i as int), active as int, lock, overview),
            decreases ids@.len() - i,
        {
            assert(ids@.take(i + 1).drop_last() =~= ids@.take(i as int));
            match lock {
                Some(b) => {
                    self.set_lock(ids[i], b);
                },
                None => {
                    if !overview && i != active {
                        self.set_gesture(ids[i], None);
                    }
                },
            }
            i = i + 1;
        }
        assert(ids@.take(i as int) =~= ids@);
    }

    /// Ends the swipes along the workspaces `ids`.
    fn still(&mut self, ids: &Vec<WorkspaceId>)
        ensures
            final(self)@ == old(self)@.still(ids@),
            final(self).next_id == old(self).next_id,
    {
        let ghost start = self@;
        let mut i: usize = 0;
        while i < ids.len()
            invariant
                i <= ids@.len(),
                self.next_id == old(self).next_id,
                self@ == start.still(ids@.take(i as int)),
            decreases ids@.len() - i,
        {
            assert(ids@.take(i + 1).drop_last() =~= ids@.take(i as int));
            self.set_gesture(ids[i], None);
            i = i + 1;
        }
        assert(ids@.take(i as int) =~= ids@);
    }

    /// The first of `ids` along which the user swipes, on a touchpad or not.
    fn first_slid(&self, ids: &Vec<WorkspaceId>, is_touchpad: Option<bool>) -> (pos: Option<usize>)
        ensures
            match pos {
                Some(p) => crate::search::find(ids@, slid_by(self@, is_touchpad)) == Some(
                    p as int,
                ) && p < ids@.len(),
                None => crate::search::find(ids@, slid_by(self@, is_touchpad)) is None,
            },
    {
        let ghost q = slid_by(self@, is_touchpad);
        let mut i: usize = 0;
        while i < ids.len()
            invariant
                i <= ids@.len(),
                q == slid_by(self@, is_touchpad),
                crate::search::find(ids@, q) == crate::search::find_from(ids@, q, i as int),
            decreases ids@.len() - i,
        {
            let hit = match self.get(ids[i]) {
                Some(w) => match w.view_gesture {
                    Some(g) => match is_touchpad {
                        Some(t) => t == g,
                        None => true,
                    },
                    None => false,
                },
                None => false,
            };
            if hit {
                return Some(i);
            }
            i = i + 1;
        }
        None
    }
}

impl Layout {
    /// The monitor on which the user swipes, on a touchpad or not.
    fn swiped_monitor(&self, is_touchpad: Option<bool>) -> (pos: Option<usize>)
        ensures
            match pos {
                Some(p) => crate::search::find(self@.monitors, swiped_by(is_touchpad)) == Some(
                    p as int,
                ) && p < self@.monitors.len(),
                None => crate::search::find(self@.monitors, swiped_by(is_touchpad)) is None,
            },
    {
        let ghost q = swiped_by(is_touchpad);
        let mut i: usize = 0;
        while i < self.monitors.len()
            invariant
                i <= self.monitors@.len(),
                q == swiped_by(is_touchpad),
                crate::search::find(self@.monitors, q) == crate::search::find_from(
                    self@.monitors,
                    q,
                    i as int,
                ),
            decreases self.monitors@.len() - i,
        {
            if let Some(WorkspaceSwitch::Gesture { target: _, between: _, is_touchpad: t }) =
                self.monitors[i].workspace_switch {
                let hit = match is_touchpad {
                    Some(x) => x == t,
                    None => true,
                };
                if hit {
                    return Some(i);
                }
            }
            i = i + 1;
        }
        None
    }

    /// Lets the swipe on monitor `mon` go towards the workspace at `idx`.
    fn end_swipe(&mut self, mon: usize, idx: usize)
        requires
            mon < old(self)@.monitors.len(),
        ensures
            final(self)@ == old(self)@.end_swipe(mon as int, idx as int),
    {
        let out = self.monitors[mon].output.id;
        let act = self.activities.active;
        if let Some(WorkspaceSwitch::Gesture { target: _, between: _, is_touchpad: _ }) =
            self.monitors[mon].workspace_switch {
            if let Some(mut v) = self.copy_view(act, out) {
                if idx < v.len() && idx as u64 <= i64::MAX as u64 {
                    v.activate(idx);
                    self.put_view(act, out, v);
                    self.monitors[mon].workspace_switch = Some(
                        WorkspaceSwitch::Animation { target: idx as i64 },
                    );
                }
            }
        }
    }

    /// Begins a swipe on output `output`, at position `reached`. Swipes on other outputs are let
    /// go, each towards its place in `landings`.
    pub(crate) fn do_workspace_switch_gesture_begin(
        &mut self,
        output: OutputId,
        is_touchpad: bool,
        reached: Reached,
        landings: &Vec<usize>,
    )
        requires
            old(self)@.monitors.len() > 0,
            landings@.len() == old(self)@.monitors.len(),
        ensures
            final(self)@ == old(self)@.begin_swipe(
                output,
                is_touchpad,
                reached,
                landings@,
                old(self)@.monitors.len() as int,
            ),
    {
        let ghost start = self@;
        let mut i: usize = 0;
        while i < self.monitors.len()
            invariant
                i <= self.monitors@.len(),
                self@.monitors.len() == start.monitors.len(),
                landings@.len() == start.monitors.len(),
                self@ == start.begin_swipe(output, is_touchpad, reached, landings@, i as int),
            decreases self.monitors@.len() - i,
        {
            if self.monitors[i].output.id == output {
                self.monitors[i].workspace_switch = Some(
                    WorkspaceSwitch::Gesture {
                        target: reached.at,
                        between: reached.between,
                        is_touchpad,
                    },
                );
            } else {
                self.end_swipe(i, landings[i]);
            }
            i = i + 1;
        }
    }

    /// Notes that the swipe has reached position `reached`, and returns the output it is on if it
    /// `moved` at all.
    pub fn workspace_switch_gesture_update(
        &mut self,
        is_touchpad: bool,
        reached: Reached,
        moved: bool,
    ) -> (o: Option<Option<Output>>)
        ensures
            match crate::search::find(old(self)@.monitors, swiped_by(Some(is_touchpad))) {
                Some(m) => o == Some(
                    if moved {
                        Some(old(self)@.monitors[m].output)
                    } else {
                        None
                    },
                ) && final(self)@ == old(self)@.swipe(m, reached, is_touchpad),
                None => o is None && final(self)@ == old(self)@,
            },
            old(self)@.whole() ==> final(self)@.whole(),
            old(self)@.whole() && old(self)@.orderly() ==> final(self)@.orderly(),
    {
        proof {
            if self@.whole() {
                crate::search::lemma_find_from(self@.monitors, swiped_by(Some(is_touchpad)), 0);
                if let Some(m) = crate::search::find(self@.monitors, swiped_by(Some(is_touchpad))) {
                    crate::resting::law_swiping_on_keeps_whole(self@, m, reached, is_touchpad);
                }
            }
        }
        match self.swiped_monitor(Some(is_touchpad)) {
            Some(m) => {
                self.monitors[m].workspace_switch = Some(
                    WorkspaceSwitch::Gesture {
                        target: reached.at,
                        between: reached.between,
                        is_touchpad,
                    },
                );
                if moved {
                    Some(Some(self.monitors[m].output))
                } else {
                    Some(None)
                }
            },
            None => None,
        }
    }

    /// Lets the swipe go towards the workspace at `landing`, and returns the output it was on.
    pub(crate) fn do_workspace_switch_gesture_end(&mut self, is_touchpad: Option<bool>, landing: usize) -> (o:
        Option<Output>)
        ensures
            match crate::search::find(old(self)@.monitors, swiped_by(is_touchpad)) {
                Some(m) => o == Some(old(self)@.monitors[m].output) && final(self)@ == old(
                    self)@.end_swipe(m, landing as int),
                None => o is None && final(self)@ == old(self)@,
            },
    {
        match self.swiped_monitor(is_touchpad) {
            Some(m) => {
                let o = self.monitors[m].output;
                self.end_swipe(m, landing);
                Some(o)
            },
            None => None,
        }
    }

    /// Begins a swipe along the workspace at `idx` of output `output`, or along the active one
    /// there, and ends it along every other one that is shown.
    pub fn view_offset_gesture_begin(
        &mut self,
        output: OutputId,
        idx: Option<usize>,
        is_touchpad: bool,
    )
        requires
            old(self)@.monitors.len() > 0,
        ensures
            final(self)@ == old(self)@.begin_slide(
                output,
                crate::moves::opt_int(idx),
                is_touchpad,
                old(self)@.monitors.len() as int,
            ),
            old(self)@.whole() ==> final(self)@.whole(),
            old(self)@.whole() && old(self)@.orderly() ==> final(self)@.orderly(),
    {
        proof {
            if self@.whole() {
                crate::resting::law_sliding_keeps_whole(
                    self@,
                    output,
                    crate::moves::opt_int(idx),
                    is_touchpad,
                    self@.monitors.len() as int,
                    WorkspaceId(0),
                );
            }
        }
        let ghost start = self@;
        let ghost at = crate::moves::opt_int(idx);
        let mut i: usize = 0;
        while i < self.monitors.len()
            invariant
                i <= self.monitors@.len(),
                self@.monitors.len() == start.monitors.len(),
                at == crate::moves::opt_int(idx),
                self@ == start.begin_slide(output, at, is_touchpad, i as int),
            decreases self.monitors@.len() - i,
        {
            let out = self.monitors[i].output.id;
            if let Some(v) = self.copy_view(self.activities.active, out) {
                let keep: Option<usize> = if out != output {
                    None
                } else {
                    match idx {
                        Some(k) => Some(k),
                        None => Some(v.active_position()),
                    }
                };
                self.workspaces.set_gestures(v.ids(), keep, is_touchpad);
            }
            i = i + 1;
        }
    }

    /// The workspace along which the user swipes, and the index of the monitor that shows it.
    fn sliding(&self, is_touchpad: Option<bool>) -> (r: Option<(usize, WorkspaceId)>)
        ensures
            match r {
                Some((m, id)) => self@.sliding(is_touchpad) == Some((m as int, id)) && m
                    < self@.monitors.len(),
                None => self@.sliding(is_touchpad) is None,
            },
    {
        let ghost q = self@.showing_slide(is_touchpad);
        let mut i: usize = 0;
        while i < self.monitors.len()
            invariant
                i <= self.monitors@.len(),
                q == self@.showing_slide(is_touchpad),
                crate::search::find(self@.monitors, q) == crate::search::find_from(
                    self@.monitors,
                    q,
                    i as int,
                ),
            decreases self.monitors@.len() - i,
        {
            let out = self.monitors[i].output;
            if let Some(v) = self.activities.view_on(self.activities.active, out.id) {
                if let Some(k) = self.workspaces.first_slid(v.ids(), is_touchpad) {
                    return Some((i, v.id_at(k)));
                }
            }
            i = i + 1;
        }
        None
    }

    /// Notes that the swipe along a workspace went on, and returns the output it is on if it
    /// `moved` at all.
    pub fn view_offset_gesture_update(&self, is_touchpad: bool, moved: bool) -> (o: Option<
        Option<Output>,
    >)
        ensures
            match self@.sliding(Some(is_touchpad)) {
                Some((m, _)) => o == Some(
                    if moved {
                        Some(self@.monitors[m].output)
                    } else {
                        None
                    },
                ),
                None => o is None,
            },
    {
        match self.sliding(Some(is_touchpad)) {
            Some((m, _)) => if moved {
                Some(Some(self.monitors[m].output))
            } else {
                Some(None)
            },
            None => None,
        }
    }

    /// Ends the swipe along a workspace, and returns the output it was on.
    pub fn view_offset_gesture_end(&mut self, is_touchpad: Option<bool>) -> (o: Option<Output>)
        ensures
            match old(self)@.sliding(is_touchpad) {
                Some((m, id)) => o == Some(old(self)@.monitors[m].output) && final(self)@ == (
                LayoutModel { pool: old(self)@.pool.set_gesture(id, None), ..old(self)@ }),
                None => o is None && final(self)@ == old(self)@,
            },
            old(self)@.whole() ==> final(self)@.whole(),
            old(self)@.whole() && old(self)@.orderly() ==> final(self)@.orderly(),
    {
        proof {
            if self@.whole() {
                if let Some((m, id)) = self@.sliding(is_touchpad) {
                    crate::resting::law_sliding_keeps_whole(self@, OutputId(0), None, false, 0, id);
                }
            }
        }
        match self.sliding(is_touchpad) {
            Some((m, id)) => {
                self.workspaces.set_gesture(id, None);
                Some(self.monitors[m].output)
            },
            None => None,
        }
    }

    /// Whether a drag is under way, and if so whether it holds the views of workspaces still.
    fn drag_lock(&self) -> (r: Option<bool>)
        ensures
            r == self@.drag_lock(),
    {
        if self.dnd.is_some() {
            return Some(true);
        }
        match self.interactive_move {
            Some(InteractiveMoveState::Moving(d)) => Some(!d.tile.floating),
            Some(InteractiveMoveState::Starting { window_id }) => Some(
                !self.floats_at_home(window_id),
            ),
            None => None,
        }
    }

    /// Does the work that follows every event: drags scroll the strips in the overview, views are
    /// held still as long as a drag needs it, and swipes along workspaces out of sight end.
    pub(crate) fn do_refresh(&mut self, is_active: bool)
        ensures
            final(self)@ == old(self)@.refresh(is_active),
    {
        let ghost start = self@;
        let lock = self.drag_lock();
        let overview = self.overview_open;
        let mut i: usize = 0;
        while i < self.monitors.len()
            invariant
                i <= self.monitors@.len(),
                self@.monitors.len() == start.monitors.len(),
                lock == start.drag_lock(),
                overview == start.overview_open,
                self@ == start.attend(i as int),
            decreases self.monitors@.len() - i,
        {
            let out = self.monitors[i].output.id;
            if overview {
                if lock.is_some() {
                    self.monitors[i].dnd_scroll = true;
                }
            } else {
                self.monitors[i].dnd_scroll = false;
            }
            if let Some(v) = self.copy_view(self.activities.active, out) {
                let active: usize = v.active_position();
                self.workspaces.attend(v.ids(), active, lock, overview);
            }
            i = i + 1;
            assert(self@.monitors =~= start.attend(i as int).monitors);
        }
        self.workspaces.still(&self.disconnected_workspace_ids);
        self.is_active = is_active;
    }
}

} // verus!
