//! Switching between activities; creating, removing and renaming them.

use vstd::prelude::*;

use crate::activity::{Activities, ActivitiesModel, Activity, ActivityModel};
use crate::errors::{ActivitySwitchBlock, CreateActivityError, RemoveActivityError, RenameActivityError};
use crate::ids::{ActivityId, WorkspaceId};
use crate::layout::{Layout, LayoutModel};
use crate::lookup::ActivityReferenceArg;
use crate::monitor::{ActivitySwitch, Monitor, SlideDirection, WorkspaceSwitch};
use crate::pool::{PoolModel, WorkspacePool};
use crate::text::{blank, same_name};
use crate::workspace::WorkspaceModel;

verus! {

/// The predicate that picks the activities named `name` up to case, other than `except`.
pub open spec fn clashing(name: Seq<char>, except: Option<ActivityId>) -> spec_fn(
    ActivityModel,
) -> bool {
    |a: ActivityModel| except != Some(a.id) && same_name(a.name, name)
}

/// The predicate that picks the monitors on which the user swipes between workspaces.
pub open spec fn swiped() -> spec_fn(Monitor) -> bool {
    |m: Monitor| m.workspace_switch matches Some(WorkspaceSwitch::Gesture { .. })
}

/// How many of `list` were active more recently than moment `seq`.
pub open spec fn newer(list: Seq<ActivityModel>, seq: int) -> nat
    decreases list.len(),
{
    if list.len() == 0 {
        0
    } else {
        newer(list.drop_last(), seq) + if list.last().last_active_seq > seq {
            1nat
        } else {
            0nat
        }
    }
}

/// The predicate that picks the activity that `n` others were active after.
pub open spec fn nth_newest(list: Seq<ActivityModel>, n: int) -> spec_fn(ActivityModel) -> bool {
    |a: ActivityModel| a.last_active_seq > 0 && newer(list, a.last_active_seq) == n
}

/// The predicate that picks the workspaces that belong to activity `act` alone.
pub open spec fn owned_by(act: ActivityId) -> spec_fn(WorkspaceModel) -> bool {
    |w: WorkspaceModel| w.activities.len() == 1 && w.activities.contains(act)
}

/// The predicate that picks the workspaces of activity `act`.
pub open spec fn in_activity(act: ActivityId) -> spec_fn(WorkspaceModel) -> bool {
    |w: WorkspaceModel| w.activities.contains(act)
}

/// The predicate that picks every activity but `act`.
pub open spec fn other_than(act: ActivityId) -> spec_fn(ActivityId) -> bool {
    |x: ActivityId| x != act
}

/// The predicate that picks the activities of `acts` other than `active`.
pub open spec fn elsewhere(active: ActivityId, acts: Seq<ActivityId>) -> spec_fn(ActivityId) -> bool {
    |x: ActivityId| x != active && acts.contains(x)
}

/// Workspace `w` without activity `act`.
pub open spec fn leave(w: WorkspaceModel, act: ActivityId) -> WorkspaceModel {
    WorkspaceModel { activities: w.activities.filter(other_than(act)), ..w }
}

impl PoolModel {
    /// Every workspace without activity `act`.
    pub open spec fn leave_all(self, act: ActivityId) -> PoolModel {
        PoolModel {
            items: Seq::new(self.items.len(), |i: int| leave(self.items[i], act)),
            ..self
        }
    }

    /// Every sticky workspace with activity `act`.
    pub open spec fn stick_all(self, act: ActivityId) -> PoolModel {
        PoolModel {
            items: Seq::new(
                self.items.len(),
                |i: int|
                    if self.items[i].sticky && !self.items[i].activities.contains(act) {
                        WorkspaceModel {
                            activities: self.items[i].activities.push(act),
                            ..self.items[i]
                        }
                    } else {
                        self.items[i]
                    },
            ),
            ..self
        }
    }
}

impl LayoutModel {
    /// What the user is doing that forbids switching activities.
    pub open spec fn switch_block(self) -> Option<ActivitySwitchBlock> {
        if self.moving is Some {
            Some(ActivitySwitchBlock::InteractiveMove)
        } else if self.dnd is Some {
            Some(ActivitySwitchBlock::Dnd)
        } else {
            self.gesture_block()
        }
    }

    /// Whether the user is swiping between workspaces.
    pub open spec fn gesture_block(self) -> Option<ActivitySwitchBlock> {
        if crate::search::find(self.monitors, swiped()) is Some {
            Some(ActivitySwitchBlock::WorkspaceSwitchGesture)
        } else {
            None
        }
    }

    /// No workspace switch under way on any monitor.
    pub open spec fn settle_all(self) -> LayoutModel {
        LayoutModel {
            monitors: Seq::new(self.monitors.len(), |i: int| self.monitors[i].settled()),
            ..self
        }
    }

    /// An activity switch away from `from` under way on every monitor.
    pub open spec fn arm(self, from: ActivityId, dir: SlideDirection) -> LayoutModel {
        LayoutModel {
            monitors: Seq::new(
                self.monitors.len(),
                |i: int|
                    Monitor {
                        activity_switch: Some(ActivitySwitch { from, dir }),
                        ..self.monitors[i]
                    },
            ),
            ..self
        }
    }

    /// No activity switch under way on any monitor.
    pub open spec fn disarm(self) -> LayoutModel {
        LayoutModel {
            monitors: Seq::new(
                self.monitors.len(),
                |i: int| Monitor { activity_switch: None, ..self.monitors[i] },
            ),
            ..self
        }
    }

    /// No activity switch away from an activity that is gone.
    pub open spec fn disarm_stale(self) -> LayoutModel {
        LayoutModel {
            monitors: Seq::new(
                self.monitors.len(),
                |i: int|
                    match self.monitors[i].activity_switch {
                        Some(s) => if self.acts.has(s.from) {
                            self.monitors[i]
                        } else {
                            Monitor { activity_switch: None, ..self.monitors[i] }
                        },
                        None => self.monitors[i],
                    },
            ),
            ..self
        }
    }

    /// Activity `target` made active: workspace switches end, views that are missing are opened,
    /// and the strips begin to slide.
    pub open spec fn switch_activity(self, target: ActivityId) -> LayoutModel {
        let from = self.acts.active;
        if target == from || !self.acts.has(target) {
            self
        } else {
            let s = LayoutModel {
                acts: self.acts.set_active(target),
                ..self.settle_all()
            }.ensure_all();
            if s.options.animate_activity_switch && !s.overview_open {
                let dir = match (s.acts.pos(target), s.acts.pos(from)) {
                    (Some(t), Some(f)) => if t > f {
                        SlideDirection::Left
                    } else {
                        SlideDirection::Right
                    },
                    _ => SlideDirection::Right,
                };
                s.arm(from, dir)
            } else {
                s
            }
        }
    }

    /// The activity that `depth` others were active after, at most the oldest one.
    pub open spec fn recent(self, depth: u32) -> Option<ActivityId> {
        let count = newer(self.acts.list, 0) as int;
        if depth == 0 || count <= 1 {
            None
        } else {
            let n: int = if depth < count {
                depth as int
            } else {
                count - 1
            };
            match crate::search::find(self.acts.list, nth_newest(self.acts.list, n)) {
                Some(i) => Some(self.acts.list[i].id),
                None => None,
            }
        }
    }

    /// A new activity called `name` added at the end, with the views that takes.
    pub open spec fn create_activity(self, name: Seq<char>) -> LayoutModel {
        let id = ActivityId(self.acts.next as u64);
        LayoutModel {
            acts: ActivitiesModel {
                list: self.acts.list.push(
                    ActivityModel {
                        id,
                        name,
                        declared: false,
                        last_active_seq: 0,
                        views: Seq::empty(),
                    },
                ),
                next: self.acts.next + 1,
                ..self.acts
            },
            pool: self.pool.stick_all(id),
            ..self
        }.ensure_all().reconcile()
    }

    /// Why an activity called `name` cannot be created.
    pub open spec fn create_error(self, name: Seq<char>) -> Option<CreateActivityError> {
        if blank(name) {
            Some(CreateActivityError::EmptyName)
        } else if crate::search::find(self.acts.list, clashing(name, None)) is Some {
            Some(CreateActivityError::DuplicateName)
        } else {
            None
        }
    }

    /// The activity that becomes active when `target` goes.
    pub open spec fn successor(self, target: ActivityId) -> Option<ActivityId> {
        match self.acts.previous {
            Some(p) => Some(p),
            None => {
                let ids = self.acts.ids();
                match crate::search::find(ids, other_than(target)) {
                    Some(i) => Some(ids[i]),
                    None => None,
                }
            },
        }
    }

    /// Why activity `target` cannot be removed.
    pub open spec fn remove_error(self, target: ActivityId) -> Option<RemoveActivityError> {
        let own = self.pool.items.filter(owned_by(target));
        if self.acts.get(target).unwrap().declared {
            Some(RemoveActivityError::ConfigDeclared)
        } else if self.acts.list.len() == 1 {
            Some(RemoveActivityError::LastRemaining)
        } else if exists|i: int| 0 <= i < own.len() && (#[trigger] own[i]).has_windows() {
            Some(RemoveActivityError::ExclusiveWorkspaceHasWindows)
        } else if exists|i: int| 0 <= i < own.len() && (#[trigger] own[i]).name is Some {
            Some(RemoveActivityError::ExclusiveNamedWorkspace)
        } else {
            None
        }
    }

    /// Activity `target` removed, with the workspaces `own` that belong to it alone.
    pub open spec fn remove_activity(self, target: ActivityId, own: Seq<WorkspaceId>) -> LayoutModel {
        let s1 = if target == self.acts.active {
            match self.successor(target) {
                Some(next) => self.switch_activity(next),
                None => self,
            }
        } else {
            self
        };
        let s2 = s1.destroy_all(own);
        let narrowed = crate::materialize::ids_of(s2.pool.items.filter(in_activity(target)));
        LayoutModel {
            pool: s2.pool.leave_all(target),
            acts: s2.acts.remove(target),
            ..s2
        }.disarm_stale().ensure_all().reclaim_all(narrowed)
    }

    /// Why activity `target` cannot be called `name`.
    pub open spec fn rename_error(self, target: ActivityId, name: Seq<char>) -> Option<
        RenameActivityError,
    > {
        if self.acts.get(target).unwrap().declared {
            Some(RenameActivityError::ConfigDeclared)
        } else if blank(name) {
            Some(RenameActivityError::EmptyName)
        } else if crate::search::find(self.acts.list, clashing(name, Some(target))) is Some {
            Some(RenameActivityError::DuplicateName)
        } else {
            None
        }
    }

    /// Activity `target` called `name`.
    pub open spec fn rename_activity(self, target: ActivityId, name: Seq<char>) -> LayoutModel {
        match self.acts.get(target) {
            Some(a) => LayoutModel {
                acts: self.acts.put(target, ActivityModel { name, ..a }),
                ..self
            },
            None => self,
        }
    }

    /// The activity to switch to in order to see workspace `id`: the one in which the window was
    /// last focused, the one that was active before, or the first in order; never the active one
    /// unless there is no other.
    pub open spec fn pick_activity(self, id: WorkspaceId, hint: Option<ActivityId>) -> ActivityId {
        let active = self.acts.active;
        let acts = match self.pool.get(id) {
            Some(w) => w.activities,
            None => Seq::empty(),
        };
        if hint is Some && hint != Some(active) && acts.contains(hint.unwrap()) {
            hint.unwrap()
        } else if self.acts.previous is Some && self.acts.previous != Some(active)
            && acts.contains(self.acts.previous.unwrap()) {
            self.acts.previous.unwrap()
        } else {
            let ids = self.acts.ids();
            match crate::search::find(ids, elsewhere(active, acts)) {
                Some(i) => ids[i],
                None => active,
            }
        }
    }
}

/// Switching activities moves no counter back.
pub proof fn lemma_switch_activity_before(s: LayoutModel, target: ActivityId)
    ensures
        s.before(s.switch_activity(target)),
        s.switch_activity(target).monitors.len() == s.monitors.len(),
        s.switch_activity(target).acts.list.len() == s.acts.list.len(),
{
    let s1 = LayoutModel { acts: s.acts.set_active(target), ..s.settle_all() };
    crate::materialize::lemma_ensure_all_leads(s1);
    crate::search::lemma_find_from(s.acts.list, crate::activity::named(target), 0);
    assert(s1.ensure_all().acts.ids() == s1.acts.ids());
    assert(s1.ensure_all().acts.ids().len() == s1.acts.ids().len());
}

impl WorkspacePool {
    /// Adds activity `act` to every sticky workspace.
    fn stick_all(&mut self, act: ActivityId)
        ensures
            final(self)@ == old(self)@.stick_all(act),
            final(self).next_id == old(self).next_id,
    {
        let ghost start = self@;
        let mut i: usize = 0;
        while i < self.items.len()
            invariant
                i <= self.items@.len(),
                self.items@.len() == start.items.len(),
                self.next_id == old(self).next_id,
                start == old(self)@,
                forall|j: int|
                    0 <= j < i ==> (#[trigger] self.items@[j])@ == start.stick_all(act).items[j],
                forall|j: int|
                    i <= j < self.items@.len() ==> (#[trigger] self.items@[j])@ == start.items[j],
            decreases self.items@.len() - i,
        {
            if self.items[i].sticky && !self.items[i].belongs_to(act) {
                self.items[i].activities.push(act);
            }
            i = i + 1;
        }
        assert(self@.items =~= start.stick_all(act).items);
    }

    /// Takes activity `act` off every workspace and returns those that had it.
    pub(crate) fn leave_all(&mut self, act: ActivityId) -> (narrowed: Vec<WorkspaceId>)
        ensures
            final(self)@ == old(self)@.leave_all(act),
            final(self).next_id == old(self).next_id,
            narrowed@ == crate::materialize::ids_of(old(self)@.items.filter(in_activity(act))),
    {
        let ghost start = self@;
        let ghost p = in_activity(act);
        let mut narrowed: Vec<WorkspaceId> = Vec::new();
        let mut i: usize = 0;
        while i < self.items.len()
            invariant
                i <= self.items@.len(),
                self.items@.len() == start.items.len(),
                self.next_id == old(self).next_id,
                start == old(self)@,
                p == in_activity(act),
                narrowed@ == crate::materialize::ids_of(start.items.take(i as int).filter(p)),
                forall|j: int|
                    0 <= j < i ==> (#[trigger] self.items@[j])@ == leave(start.items[j], act),
                forall|j: int|
                    i <= j < self.items@.len() ==> (#[trigger] self.items@[j])@ == start.items[j],
            decreases self.items@.len() - i,
        {
            let ghost w = start.items[i as int];
            assert(self.items@[i as int]@ == w);
            proof {
                assert(start.items.take(i + 1).drop_last() =~= start.items.take(i as int));
                assert(start.items.take(i + 1).last() == w);
                reveal(Seq::filter);
            }
            if self.items[i].belongs_to(act) {
                narrowed.push(self.items[i].id);
                assert(narrowed@ =~= crate::materialize::ids_of(
                    start.items.take(i + 1).filter(p),
                ));
            }
            let rest = without(&self.items[i].activities, act);
            self.items[i].activities = rest;
            i = i + 1;
        }
        assert(start.items.take(i as int) =~= start.items);
        assert(self@.items =~= start.leave_all(act).items);
        narrowed
    }
}

/// `acts` without `act`.
pub fn without(acts: &Vec<ActivityId>, act: ActivityId) -> (r: Vec<ActivityId>)
    ensures
        r@ == acts@.filter(other_than(act)),
{
    let mut r: Vec<ActivityId> = Vec::new();
    let mut i: usize = 0;
    while i < acts.len()
        invariant
            i <= acts@.len(),
            r@ == acts@.take(i as int).filter(other_than(act)),
        decreases acts@.len() - i,
    {
        proof {
            assert(acts@.take(i + 1).drop_last() =~= acts@.take(i as int));
            reveal(Seq::filter);
        }
        if acts[i] != act {
            r.push(acts[i]);
        }
        i = i + 1;
    }
    assert(acts@.take(i as int) =~= acts@);
    r
}

impl Activities {
    /// How many activities were active more recently than moment `seq`.
    fn newer(&self, seq: u64) -> (n: usize)
        ensures
            n == newer(self@.list, seq as int),
            n <= self@.list.len(),
    {
        let mut n: usize = 0;
        let mut i: usize = 0;
        while i < self.list.len()
            invariant
                i <= self.list@.len(),
                n <= i,
                n == newer(self@.list.take(i as int), seq as int),
            decreases self.list@.len() - i,
        {
            proof {
                assert(self@.list.take(i + 1).drop_last() =~= self@.list.take(i as int));
                assert(self@.list.take(i + 1).last() == self.list@[i as int]@);
            }
            if self.list[i].last_active_seq > seq {
                n = n + 1;
            }
            i = i + 1;
        }
        assert(self@.list.take(i as int) =~= self@.list);
        n
    }

    /// Whether an activity other than `except` is named `name`, up to case.
    fn clashes(&self, name: &str, except: Option<ActivityId>) -> (b: bool)
        ensures
            b == (crate::search::find(self@.list, clashing(name@, except)) is Some),
    {
        let ghost q = clashing(name@, except);
        let mut i: usize = 0;
        while i < self.list.len()
            invariant
                i <= self.list@.len(),
                q == clashing(name@, except),
                crate::search::find(self@.list, q) == crate::search::find_from(
                    self@.list,
                    q,
                    i as int,
                ),
            decreases self.list@.len() - i,
        {
            let a = &self.list[i];
            assert(self@.list[i as int] == a@);
            let exempt = match except {
                Some(x) => x == a.id,
                None => false,
            };
            let here = !exempt && crate::text::eq_ignore_ascii_case(a.name.as_str(), name);
            assert(here == q(self@.list[i as int]));
            if here {
                return true;
            }
            i = i + 1;
        }
        false
    }
}

impl Layout {
    /// What the user is doing that forbids switching activities: a window move, a drag, or a swipe
    /// between workspaces on any monitor.
    pub fn is_activity_switch_hard_blocked(&self) -> (b: Option<ActivitySwitchBlock>)
        ensures
            b == self@.switch_block(),
    {
        if self.interactive_move.is_some() {
            Some(ActivitySwitchBlock::InteractiveMove)
        } else if self.dnd.is_some() {
            Some(ActivitySwitchBlock::Dnd)
        } else {
            self.is_workspace_activity_assignment_blocked_by_gesture()
        }
    }

    /// Whether the user is swiping between workspaces on any monitor.
    pub fn is_workspace_activity_assignment_blocked_by_gesture(&self) -> (b: Option<
        ActivitySwitchBlock,
    >)
        ensures
            b == self@.gesture_block(),
    {
        let ghost q = swiped();
        let mut i: usize = 0;
        while i < self.monitors.len()
            invariant
                i <= self.monitors@.len(),
                q == swiped(),
                crate::search::find(self.monitors@, q) == crate::search::find_from(
                    self.monitors@,
                    q,
                    i as int,
                ),
            decreases self.monitors@.len() - i,
        {
            if self.monitors[i].is_in_gesture() {
                return Some(ActivitySwitchBlock::WorkspaceSwitchGesture);
            }
            i = i + 1;
        }
        None
    }

    /// Ends the workspace switches of every monitor.
    fn settle_all(&mut self)
        ensures
            final(self)@ == old(self)@.settle_all(),
    {
        let ghost start = self@;
        let mut i: usize = 0;
        while i < self.monitors.len()
            invariant
                i <= self.monitors@.len(),
                self.monitors@.len() == start.monitors.len(),
                forall|j: int|
                    0 <= j < i ==> #[trigger] self.monitors@[j] == start.monitors[j].settled(),
                forall|j: int|
                    i <= j < self.monitors@.len() ==> #[trigger] self.monitors@[j]
                        == start.monitors[j],
                self@ == (LayoutModel { monitors: self.monitors@, ..start }),
            decreases self.monitors@.len() - i,
        {
            self.monitors[i].workspace_switch = None;
            i = i + 1;
        }
        assert(self.monitors@ =~= start.settle_all().monitors);
    }

    /// Starts an activity switch away from `from` on every monitor.
    fn arm(&mut self, from: ActivityId, dir: SlideDirection)
        ensures
            final(self)@ == old(self)@.arm(from, dir),
    {
        let ghost start = self@;
        let mut i: usize = 0;
        while i < self.monitors.len()
            invariant
                i <= self.monitors@.len(),
                self.monitors@.len() == start.monitors.len(),
                forall|j: int|
                    0 <= j < i ==> #[trigger] self.monitors@[j] == start.arm(from, dir).monitors[j],
                forall|j: int|
                    i <= j < self.monitors@.len() ==> #[trigger] self.monitors@[j]
                        == start.monitors[j],
                self@ == (LayoutModel { monitors: self.monitors@, ..start }),
            decreases self.monitors@.len() - i,
        {
            self.monitors[i].activity_switch = Some(ActivitySwitch { from, dir });
            i = i + 1;
        }
        assert(self.monitors@ =~= start.arm(from, dir).monitors);
    }

    /// Ends the activity switches of every monitor.
    pub fn snap_all_activity_switches(&mut self)
        ensures
            final(self)@ == old(self)@.disarm(),
            old(self)@.whole() ==> final(self)@.whole(),
            old(self)@.whole() && old(self)@.orderly() ==> final(self)@.orderly(),
    {
        proof {
            if self@.whole() {
                crate::resting::law_ending_animations_keeps_whole(self@);
            }
        }
        let ghost start = self@;
        let mut i: usize = 0;
        while i < self.monitors.len()
            invariant
                i <= self.monitors@.len(),
                self.monitors@.len() == start.monitors.len(),
                forall|j: int|
                    0 <= j < i ==> #[trigger] self.monitors@[j] == start.disarm().monitors[j],
                forall|j: int|
                    i <= j < self.monitors@.len() ==> #[trigger] self.monitors@[j]
                        == start.monitors[j],
                self@ == (LayoutModel { monitors: self.monitors@, ..start }),
            decreases self.monitors@.len() - i,
        {
            self.monitors[i].activity_switch = None;
            i = i + 1;
        }
        assert(self.monitors@ =~= start.disarm().monitors);
    }

    /// Ends the activity switches away from activities that are gone.
    pub fn snap_stale_activity_switches(&mut self)
        ensures
            final(self)@ == old(self)@.disarm_stale(),
            old(self)@.whole() ==> final(self)@.whole(),
            old(self)@.whole() && old(self)@.orderly() ==> final(self)@.orderly(),
    {
        proof {
            if self@.whole() {
                crate::resting::law_ending_animations_keeps_whole(self@);
            }
        }
        let ghost start = self@;
        let mut i: usize = 0;
        while i < self.monitors.len()
            invariant
                i <= self.monitors@.len(),
                self.monitors@.len() == start.monitors.len(),
                forall|j: int|
                    0 <= j < i ==> #[trigger] self.monitors@[j] == start.disarm_stale().monitors[j],
                forall|j: int|
                    i <= j < self.monitors@.len() ==> #[trigger] self.monitors@[j]
                        == start.monitors[j],
                self@ == (LayoutModel { monitors: self.monitors@, ..start }),
            decreases self.monitors@.len() - i,
        {
            let stale = match self.monitors[i].activity_switch {
                Some(s) => !self.activities.contains(s.from),
                None => false,
            };
            if stale {
                self.monitors[i].activity_switch = None;
            }
            i = i + 1;
        }
        assert(self.monitors@ =~= start.disarm_stale().monitors);
    }

    /// Makes activity `target` active. Nothing happens if it is active already or does not exist.
    pub(crate) fn do_switch_activity(&mut self, target: ActivityId)
        requires
            old(self)@.switch_activity(target).fits(),
        ensures
            final(self)@ == old(self)@.switch_activity(target),
    {
        let from = self.activities.active;
        if target == from || !self.activities.contains(target) {
            return;
        }
        let ghost s1 = LayoutModel { acts: self@.acts.set_active(target), ..self@.settle_all() };
        proof {
            crate::materialize::lemma_ensure_all_leads(s1);
        }
        self.activities.set_active(target);
        self.settle_all();
        self.ensure_all_activity_views();
        if self.options.animate_activity_switch && !self.overview_open {
            let dir = match (
                self.activities.position_of(target),
                self.activities.position_of(from),
            ) {
                (Some(t), Some(f)) => if t > f {
                    SlideDirection::Left
                } else {
                    SlideDirection::Right
                },
                _ => SlideDirection::Right,
            };
            self.arm(from, dir);
        }
    }

    /// Switches to the activity that `depth` others were active after, at most to the oldest one.
    /// Activities that were never active do not count.
    pub(crate) fn do_switch_activity_previous(&mut self, depth: u32)
        requires
            match old(self)@.recent(depth) {
                Some(id) => old(self)@.switch_activity(id).fits(),
                None => true,
            },
        ensures
            final(self)@ == match old(self)@.recent(depth) {
                Some(id) => old(self)@.switch_activity(id),
                None => old(self)@,
            },
    {
        if let Some(id) = self.recent_activity(depth) {
            self.do_switch_activity(id);
        }
    }

    /// The activity that `depth` others were active after, at most the oldest one.
    #[verifier::loop_isolation(false)]
    pub fn recent_activity(&self, depth: u32) -> (id: Option<ActivityId>)
        ensures
            id == self@.recent(depth),
    {
        if depth == 0 {
            return None;
        }
        let count: usize = self.activities.newer(0);
        if count <= 1 {
            return None;
        }
        let n: usize = if (depth as u64) < count as u64 {
            depth as usize
        } else {
            count - 1
        };
        let ghost q = nth_newest(self@.acts.list, n as int);
        let mut i: usize = 0;
        while i < self.activities.list.len()
            invariant
                i <= self.activities.list@.len(),
                q == nth_newest(self@.acts.list, n as int),
                crate::search::find(self@.acts.list, q) == crate::search::find_from(
                    self@.acts.list,
                    q,
                    i as int,
                ),
            decreases self.activities.list@.len() - i,
        {
            let seq: u64 = self.activities.list[i].last_active_seq;
            assert(self@.acts.list[i as int] == self.activities.list@[i as int]@);
            let here = seq > 0 && self.activities.newer(seq) == n;
            assert(here == q(self@.acts.list[i as int]));
            if here {
                return Some(self.activities.list[i].id);
            }
            i = i + 1;
        }
        None
    }

    /// Creates an activity called `name` and returns its id. Sticky workspaces come to belong to
    /// it; it gets a view of every connected output.
    pub(crate) fn do_create_activity(&mut self, name: String) -> (r: Result<ActivityId, CreateActivityError>)
        requires
            old(self)@.create_error(name@) is None ==> old(self)@.create_activity(name@).fits(),
        ensures
            match r {
                Ok(id) => old(self)@.create_error(name@) is None && id == ActivityId(
                    old(self)@.acts.next as u64,
                ) && final(self)@ == old(self)@.create_activity(name@),
                Err(e) => old(self)@.create_error(name@) == Some(e) && final(self)@ == old(self)@,
            },
    {
        if crate::text::is_blank(name.as_str()) {
            return Err(CreateActivityError::EmptyName);
        }
        if self.activities.clashes(name.as_str(), None) {
            return Err(CreateActivityError::DuplicateName);
        }
        let ghost start = self@;
        let id = ActivityId(self.activities.next_id);
        let ghost grown = LayoutModel {
            acts: ActivitiesModel {
                list: start.acts.list.push(
                    ActivityModel {
                        id,
                        name: name@,
                        declared: false,
                        last_active_seq: 0,
                        views: Seq::empty(),
                    },
                ),
                next: start.acts.next + 1,
                ..start.acts
            },
            pool: start.pool.stick_all(id),
            ..start
        };
        proof {
            crate::materialize::lemma_ensure_all_leads(grown);
            crate::reconcile::lemma_reconcile_leads(grown.ensure_all());
        }
        self.activities.next_id = self.activities.next_id + 1;
        let fresh = Activity {
            id,
            name,
            declared: false,
            last_active_seq: 0,
            views: Vec::new(),
        };
        assert(fresh@.views =~= Seq::empty());
        self.activities.list.push(fresh);
        assert(self@.acts.list =~= grown.acts.list);
        self.workspaces.stick_all(id);
        self.ensure_all_activity_views();
        self.do_reconcile_views_with_membership();
        Ok(id)
    }

    /// The workspaces that belong to activity `act` alone, and whether any has windows or, having
    /// none, a name.
    pub(crate) fn owned(&self, act: ActivityId) -> (r: (Vec<WorkspaceId>, bool, bool))
        ensures
            r.0@ == crate::materialize::ids_of(self@.pool.items.filter(owned_by(act))),
            r.1 == exists|i: int|
                0 <= i < self@.pool.items.filter(owned_by(act)).len() && (
                #[trigger] self@.pool.items.filter(owned_by(act))[i]).has_windows(),
            r.2 == exists|i: int|
                0 <= i < self@.pool.items.filter(owned_by(act)).len() && (
                #[trigger] self@.pool.items.filter(owned_by(act))[i]).name is Some,
    {
        let ghost items = self@.pool.items;
        let ghost p = owned_by(act);
        let mut ids: Vec<WorkspaceId> = Vec::new();
        let mut windows = false;
        let mut names = false;
        let mut i: usize = 0;
        while i < self.workspaces.items.len()
            invariant
                i <= self.workspaces.items@.len(),
                items == self@.pool.items,
                p == owned_by(act),
                ids@ == crate::materialize::ids_of(items.take(i as int).filter(p)),
                windows == exists|k: int|
                    0 <= k < items.take(i as int).filter(p).len() && (#[trigger] items.take(
                        i as int,
                    ).filter(p)[k]).has_windows(),
                names == exists|k: int|
                    0 <= k < items.take(i as int).filter(p).len() && (#[trigger] items.take(
                        i as int,
                    ).filter(p)[k]).name is Some,
            decreases self.workspaces.items@.len() - i,
        {
            let w = &self.workspaces.items[i];
            let ghost before = items.take(i as int).filter(p);
            let ghost after = items.take(i + 1).filter(p);
            proof {
                assert(items.take(i + 1).drop_last() =~= items.take(i as int));
                assert(items.take(i + 1).last() == w@);
                reveal(Seq::filter);
            }
            if w.activities.len() == 1 && w.belongs_to(act) {
                ids.push(w.id);
                let ghost windows0 = windows;
                let ghost names0 = names;
                if w.has_windows() {
                    windows = true;
                }
                if w.name.is_some() {
                    names = true;
                }
                proof {
                    assert(after == before.push(w@));
                    assert(ids@ =~= crate::materialize::ids_of(after));
                    assert(after[before.len() as int] == w@);
                    assert(forall|k: int|
                        0 <= k < before.len() ==> #[trigger] after[k] == before[k]);
                    if windows0 {
                        let k = choose|k: int|
                            0 <= k < before.len() && (#[trigger] before[k]).has_windows();
                        assert(after[k].has_windows());
                    }
                    if names0 {
                        let k = choose|k: int|
                            0 <= k < before.len() && (#[trigger] before[k]).name is Some;
                        assert(after[k].name is Some);
                    }
                }
            } else {
                assert(after == before);
            }
            i = i + 1;
        }
        assert(items.take(i as int) =~= items);
        (ids, windows, names)
    }

    /// The activity that becomes active when `target` goes.
    #[verifier::loop_isolation(false)]
    fn successor(&self, target: ActivityId) -> (id: Option<ActivityId>)
        ensures
            id == self@.successor(target),
    {
        if self.activities.previous.is_some() {
            return self.activities.previous;
        }
        let ids = self.activities.ids();
        let ghost q = other_than(target);
        let mut i: usize = 0;
        while i < ids.len()
            invariant
                i <= ids@.len(),
                q == other_than(target),
                crate::search::find(ids@, q) == crate::search::find_from(ids@, q, i as int),
            decreases ids@.len() - i,
        {
            if ids[i] != target {
                return Some(ids[i]);
            }
            i = i + 1;
        }
        None
    }

    /// Removes the activity that `reference` names and returns its id. It has to be one that the
    /// configuration does not declare, not the last one, and without windows or names of its own.
    pub(crate) fn do_remove_activity(&mut self, reference: &ActivityReferenceArg) -> (r: Result<
        ActivityId,
        RemoveActivityError,
    >)
        requires
            match old(self)@.referred_activity(*reference) {
                Some(target) => old(self)@.remove_error(target) is None ==> old(self)@.remove_activity(
                    target,
                    crate::materialize::ids_of(old(self)@.pool.items.filter(owned_by(target))),
                ).fits(),
                None => true,
            },
        ensures
            match old(self)@.referred_activity(*reference) {
                Some(target) => match old(self)@.remove_error(target) {
                    None => r == Ok::<ActivityId, RemoveActivityError>(target) && final(self)@
                        == old(self)@.remove_activity(
                        target,
                        crate::materialize::ids_of(old(self)@.pool.items.filter(owned_by(target))),
                    ),
                    Some(e) => r == Err::<ActivityId, RemoveActivityError>(e) && final(self)@
                        == old(self)@,
                },
                None => r == Err::<ActivityId, RemoveActivityError>(RemoveActivityError::NotFound)
                    && final(self)@ == old(self)@,
            },
    {
        let ghost start = self@;
        let target = match self.resolve_activity_ref(reference) {
            Some(t) => t,
            None => {
                return Err(RemoveActivityError::NotFound);
            },
        };
        let declared = match self.activities.get(target) {
            Some(a) => a.declared,
            None => false,
        };
        if declared {
            return Err(RemoveActivityError::ConfigDeclared);
        }
        if self.activities.list.len() == 1 {
            return Err(RemoveActivityError::LastRemaining);
        }
        let (own, windows, names) = self.owned(target);
        if windows {
            return Err(RemoveActivityError::ExclusiveWorkspaceHasWindows);
        }
        if names {
            return Err(RemoveActivityError::ExclusiveNamedWorkspace);
        }
        let cascade = if target == self.activities.active {
            self.successor(target)
        } else {
            None
        };
        let ghost s1 = match cascade {
            Some(next) => start.switch_activity(next),
            None => start,
        };
        let ghost s2 = s1.destroy_all(own@);
        let ghost narrowed0 = crate::materialize::ids_of(
            s2.pool.items.filter(in_activity(target)),
        );
        let ghost s3 = LayoutModel {
            pool: s2.pool.leave_all(target),
            acts: s2.acts.remove(target),
            ..s2
        };
        proof {
            if let Some(next) = cascade {
                lemma_switch_activity_before(start, next);
            }
            crate::reclaim::lemma_destroy_all_leads(s1, own@);
            crate::materialize::lemma_ensure_all_leads(s3.disarm_stale());
            crate::reclaim::lemma_reclaim_all_leads(s3.disarm_stale().ensure_all(), narrowed0);
        }
        if let Some(next) = cascade {
            self.do_switch_activity(next);
        }
        self.destroy_workspaces_cross_activity(&own);
        let narrowed = self.workspaces.leave_all(target);
        self.activities.remove(target);
        self.snap_stale_activity_switches();
        self.ensure_all_activity_views();
        self.reclaim_unpinned_empty_workspaces(&narrowed);
        Ok(target)
    }

    /// Renames the activity that `reference` names and returns its id. Nothing else changes.
    pub(crate) fn do_rename_activity(&mut self, reference: &ActivityReferenceArg, name: String) -> (r: Result<
        ActivityId,
        RenameActivityError,
    >)
        ensures
            match old(self)@.referred_activity(*reference) {
                Some(target) => match old(self)@.rename_error(target, name@) {
                    None => r == Ok::<ActivityId, RenameActivityError>(target) && final(self)@
                        == old(self)@.rename_activity(target, name@),
                    Some(e) => r == Err::<ActivityId, RenameActivityError>(e) && final(self)@
                        == old(self)@,
                },
                None => r == Err::<ActivityId, RenameActivityError>(RenameActivityError::NotFound)
                    && final(self)@ == old(self)@,
            },
    {
        let target = match self.resolve_activity_ref(reference) {
            Some(t) => t,
            None => {
                return Err(RenameActivityError::NotFound);
            },
        };
        let declared = match self.activities.get(target) {
            Some(a) => a.declared,
            None => false,
        };
        if declared {
            return Err(RenameActivityError::ConfigDeclared);
        }
        if crate::text::is_blank(name.as_str()) {
            return Err(RenameActivityError::EmptyName);
        }
        if self.activities.clashes(name.as_str(), Some(target)) {
            return Err(RenameActivityError::DuplicateName);
        }
        let ghost start = self@;
        let ghost text = name@;
        if let Some(p) = self.activities.position_of(target) {
            self.activities.list[p].name = name;
            assert(self@.acts.list =~= start.rename_activity(target, text).acts.list);
        }
        Ok(target)
    }

    /// The activity to switch to in order to see workspace `id`.
    #[verifier::loop_isolation(false)]
    pub fn pick_activity_for_hidden_window(&self, id: WorkspaceId, hint: Option<ActivityId>) -> (r:
        ActivityId)
        ensures
            r == self@.pick_activity(id, hint),
    {
        let active = self.activities.active;
        let ghost acts = match self@.pool.get(id) {
            Some(w) => w.activities,
            None => Seq::empty(),
        };
        if let Some(h) = hint {
            if h != active && self.workspaces.is_member(id, h) {
                return h;
            }
        }
        if let Some(p) = self.activities.previous {
            if p != active && self.workspaces.is_member(id, p) {
                return p;
            }
        }
        let ids = self.activities.ids();
        let ghost q = elsewhere(active, acts);
        let mut i: usize = 0;
        while i < ids.len()
            invariant
                i <= ids@.len(),
                acts == match self@.pool.get(id) {
                    Some(w) => w.activities,
                    None => Seq::empty(),
                },
                q == elsewhere(active, acts),
                crate::search::find(ids@, q) == crate::search::find_from(ids@, q, i as int),
            decreases ids@.len() - i,
        {
            if ids[i] != active && self.workspaces.is_member(id, ids[i]) {
                return ids[i];
            }
            i = i + 1;
        }
        active
    }
}

} // verus!
