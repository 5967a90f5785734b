//! Ordering, naming and switching workspaces, and moving them between outputs.

use vstd::prelude::*;

use crate::ids::{ActivityId, OutputId, WorkspaceId};
use crate::layout::{Layout, LayoutModel};
use crate::lookup::WorkspaceReference;
use crate::monitor::Monitor;
use crate::reconcile::Stray;
use crate::view::{ViewModel, WorkspaceView};
use crate::windows::holds_on;

verus! {

impl LayoutModel {
    /// The active view of monitor `mon` rearranged to `v`, where the entries between `low` and
    /// `high` have moved, with the bookends that takes.
    pub open spec fn rearrange(self, mon: int, v: ViewModel, low: int, high: int) -> LayoutModel {
        let m = self.monitors[mon];
        let s1 = self.with_view(self.acts.active, m.output.id, v);
        let s2 = if high == v.ids.len() - 1 {
            s1.add_workspace_bottom(mon)
        } else {
            s1
        };
        let s3 = if m.empty_workspace_above_first && low == 0 {
            s2.add_workspace_top(mon)
        } else {
            s2
        };
        s3.settle(mon).clean_up(mon)
    }

    /// The active workspace of monitor `mon` exchanged with the one below.
    pub open spec fn sink(self, mon: int) -> LayoutModel {
        match self.active_view(self.monitors[mon].output.id) {
            Some(v) => {
                let a = v.active_position();
                if a + 1 < v.ids.len() {
                    self.rearrange(mon, v.swap(a, a + 1), a, a + 1)
                } else {
                    self
                }
            },
            None => self,
        }
    }

    /// The active workspace of monitor `mon` exchanged with the one above.
    pub open spec fn raise(self, mon: int) -> LayoutModel {
        match self.active_view(self.monitors[mon].output.id) {
            Some(v) => {
                let a = v.active_position();
                if 0 < a < v.ids.len() {
                    self.rearrange(mon, v.swap(a, a - 1), a - 1, a)
                } else {
                    self
                }
            },
            None => self,
        }
    }

    /// The workspace at `from` of monitor `mon` moved to `to`, or to the end.
    pub open spec fn relocate(self, mon: int, from: int, to: int) -> LayoutModel {
        match self.active_view(self.monitors[mon].output.id) {
            Some(v) => {
                let n = v.ids.len();
                let at = if to < n {
                    to
                } else {
                    n - 1
                };
                if n <= from || from == at {
                    self
                } else if from < at {
                    self.rearrange(mon, v.move_within(from, at), from, at)
                } else {
                    self.rearrange(mon, v.move_within(from, at), at, from)
                }
            },
            None => self,
        }
    }

    /// Monitor and place that a request to reorder workspaces is about: on the focused monitor
    /// unless an output is named, the active workspace unless a place is.
    pub open spec fn reorder_place(self, r: Option<(Option<OutputId>, int)>) -> Option<(int, int)> {
        match r {
            Some((out, idx)) => match out {
                Some(out) => match self.monitor_pos(out) {
                    Some(m) => Some((m, idx)),
                    None => None,
                },
                None => Some((self.focused, idx)),
            },
            None => Some(self.active_place(self.focused)),
        }
    }

    /// Activity `act`'s entry for workspace `id` moved from its view of output `from` to its view
    /// of output `to`, if it has those views.
    pub open spec fn rehome_in(self, act: ActivityId, id: WorkspaceId, from: OutputId, to: OutputId) -> LayoutModel {
        if act == self.acts.active {
            self
        } else {
            let s = self.unshow(Stray { act, output: from, id });
            match s.view_of(act, to) {
                Some(v) => if v.position_of(id) is None && v.ids.len() > 0 {
                    s.with_view(act, to, v.insert(v.ids.len() - 1, id))
                } else {
                    s
                },
                None => s,
            }
        }
    }

    /// The same for each of the activities `acts`.
    pub open spec fn rehome(self, acts: Seq<ActivityId>, id: WorkspaceId, from: OutputId, to: OutputId) -> LayoutModel
        decreases acts.len(),
    {
        if acts.len() == 0 {
            self
        } else {
            self.rehome(acts.drop_last(), id, from, to).rehome_in(acts.last(), id, from, to)
        }
    }

    /// Whether the workspace at `idx` of monitor `mon` is the focused one.
    pub open spec fn is_focused_place(self, mon: int, idx: int) -> bool {
        mon == self.focused && idx == self.active_place(mon).1
    }

    /// Workspace `id`, at `idx` of monitor `mon`, moved to place `at` of monitor `mon2` in the
    /// active activity.
    pub open spec fn hand_over(
        self,
        mon: int,
        idx: int,
        mon2: int,
        at: int,
        id: WorkspaceId,
        activate: bool,
    ) -> LayoutModel {
        let s = self.detach(mon, idx);
        LayoutModel {
            pool: s.pool.set_output(id, Some(self.monitors[mon2].output.id)),
            ..s
        }.attach(mon2, id, at, activate)
    }

    /// The workspace at `idx` of monitor `mon` moved to monitor `mon2`, right below its active
    /// one, in every activity that has it.
    pub open spec fn transfer(self, mon: int, idx: int, mon2: int) -> LayoutModel {
        let from = self.monitors[mon].output.id;
        let to = self.monitors[mon2].output.id;
        match self.active_view(from) {
            Some(v) => if v.ids.len() <= idx {
                self
            } else if mon == mon2 {
                LayoutModel { pool: self.pool.set_output(v.ids[idx], Some(to)), ..self }
            } else {
                let id = v.ids[idx];
                let s1 = self.hand_over(
                    mon,
                    idx,
                    mon2,
                    self.active_place(mon2).1 + 1,
                    id,
                    self.is_focused_place(mon, idx),
                );
                let s2 = s1.rehome(s1.activities_of(id), id, from, to);
                LayoutModel {
                    focused: if self.is_focused_place(mon, idx) {
                        mon2
                    } else {
                        s2.focused
                    },
                    ..s2
                }
            },
            None => self,
        }
    }

    /// The monitor on whose output some activity shows workspace `id`.
    pub open spec fn monitor_holding(self, id: WorkspaceId) -> Option<int> {
        crate::search::find(self.monitors, self.held_on(id))
    }

    /// The predicate that picks a monitor on whose output some activity shows workspace `id`.
    pub open spec fn held_on(self, id: WorkspaceId) -> spec_fn(Monitor) -> bool {
        |m: Monitor| crate::search::find(self.acts.list, holds_on(m.output.id, id)) is Some
    }

    /// Workspace `id` named `name`. A name turns a bookend into an ordinary workspace, so new
    /// bookends may be due.
    pub open spec fn name_workspace(self, id: WorkspaceId, name: Seq<char>) -> LayoutModel {
        let s1 = LayoutModel { pool: self.pool.set_name(id, Some(name)), ..self };
        match s1.monitor_holding(id) {
            Some(mon) => {
                let m = s1.monitors[mon];
                let v = s1.active_view(m.output.id);
                let top = m.empty_workspace_above_first && v is Some && v.unwrap().ids.len() > 0
                    && v.unwrap().ids[0] == id;
                let bottom = v is Some && v.unwrap().ids.len() > 0 && v.unwrap().ids.last() == id;
                let s2 = if top {
                    s1.add_workspace_top(mon)
                } else {
                    s1
                };
                let s3 = if bottom {
                    s2.add_workspace_bottom(mon)
                } else {
                    s2
                };
                s3.normalize()
            },
            None => s1,
        }
    }

    /// The workspace that `r` refers to, or the active one, named `name`, unless a workspace has
    /// that name.
    pub open spec fn set_workspace_name(self, name: Seq<char>, r: Option<WorkspaceReference>) -> LayoutModel {
        if self.named_workspace(name) is Some {
            self
        } else {
            match self.referred_or_active(r) {
                Some(id) => self.name_workspace(id, name),
                None => self,
            }
        }
    }

    /// Workspace `id` without its name. An empty one may not be needed any more.
    pub open spec fn unname(self, id: WorkspaceId) -> LayoutModel {
        match self.monitor_showing(id) {
            Some(mon) => LayoutModel { pool: self.pool.set_name(id, None), ..self }.tidy(mon),
            None => match crate::search::find(self.parked, crate::search::equal_to(id)) {
                Some(i) => {
                    let pool = self.pool.set_name(id, None);
                    match pool.get(id) {
                        Some(w) => if w.tiles.len() > 0 {
                            LayoutModel { pool, ..self }
                        } else {
                            LayoutModel {
                                pool: pool.remove(id),
                                parked: self.parked.remove(i),
                                ..self
                            }
                        },
                        None => LayoutModel { pool, ..self },
                    }
                },
                None => self,
            },
        }
    }

    /// The workspace at `idx` of the focused monitor made active, or the last one.
    pub open spec fn switch_to(self, idx: int) -> LayoutModel {
        let n = self.view_len(self.focused);
        if self.monitors.len() == 0 {
            self
        } else if idx < n {
            self.focus_on(self.focused, idx)
        } else {
            self.focus_on(self.focused, n - 1)
        }
    }

    /// Where the workspace that was active before is on the focused monitor.
    pub open spec fn previous_place(self) -> Option<int> {
        match self.active_view(self.monitors[self.focused].output.id) {
            Some(v) => match v.previous {
                Some(p) => v.position_of(p),
                None => None,
            },
            None => None,
        }
    }

    /// The workspace that was active before on the focused monitor made active.
    pub open spec fn switch_back(self) -> LayoutModel {
        if self.monitors.len() == 0 {
            self
        } else {
            match self.previous_place() {
                Some(i) => self.switch_to(i),
                None => self,
            }
        }
    }

    /// The workspace at `idx` of the focused monitor made active; if it is, the one before.
    pub open spec fn switch_to_or_back(self, idx: int) -> LayoutModel {
        let n = self.view_len(self.focused);
        let at = if idx < n {
            idx
        } else {
            n - 1
        };
        if self.monitors.len() == 0 {
            self
        } else if at == self.active_place(self.focused).1 {
            self.switch_back()
        } else {
            self.switch_to(at)
        }
    }

    /// The workspace above the active one made active.
    pub open spec fn switch_up(self) -> LayoutModel {
        let a = self.active_place(self.focused).1;
        self.switch_to(
            if a > 0 {
                a - 1
            } else {
                0
            },
        )
    }

    /// The workspace below the active one made active.
    pub open spec fn switch_down(self) -> LayoutModel {
        self.switch_to(self.active_place(self.focused).1 + 1)
    }
}

/// Putting a view in place, with no switch under way and nothing stray, keeps the frame.
pub proof fn lemma_finish_leads(s: LayoutModel, mon: int, v: ViewModel)
    requires
        0 <= mon < s.monitors.len(),
    ensures
        s.leads_to(
            s.with_view(s.acts.active, s.monitors[mon].output.id, v).settle(mon).clean_up(mon),
        ),
{
    let s1 = s.with_view(s.acts.active, s.monitors[mon].output.id, v);
    crate::reclaim::lemma_with_view_leads(s, s.acts.active, s.monitors[mon].output.id, v);
    assert(s.leads_to(s1.settle(mon)));
    crate::reclaim::lemma_clean_up_leads(s1.settle(mon), mon);
}

/// Attaching a workspace keeps the frame.
pub proof fn lemma_attach_leads(s: LayoutModel, mon: int, id: WorkspaceId, idx: int, activate: bool)
    requires
        0 <= mon < s.monitors.len(),
    ensures
        s.leads_to(s.attach(mon, id, idx, activate)),
{
    let m = s.monitors[mon];
    let out = m.output.id;
    let s1 = LayoutModel { pool: s.pool.bind(id, m.output), ..s };
    assert(s.leads_to(s1));
    if let Some(v) = s1.active_view(out) {
        if v.ids.len() > 0 {
            let at = if idx >= v.ids.len() {
                v.ids.len() - 1
            } else {
                idx
            };
            let lead = at == 0 && m.empty_workspace_above_first;
            crate::bookends::lemma_mint_into_leads(s1, mon, s1.acts.active, 0);
            let s2 = if lead {
                s1.add_workspace_top(mon)
            } else {
                s1
            };
            let at2 = if lead {
                1
            } else {
                at
            };
            assert(s.leads_to(s2));
            if let Some(v2) = s2.active_view(out) {
                let v3 = v2.insert(at2, id);
                let v4 = if activate {
                    v3.activate(at2)
                } else {
                    v3
                };
                lemma_finish_leads(s2, mon, v4);
                assert(s2.monitors[mon].output == s.monitors[mon].output);
                let end = s2.with_view(s2.acts.active, s2.monitors[mon].output.id, v4).settle(
                    mon,
                ).clean_up(mon);
                assert(s.attach(mon, id, idx, activate) == end);
                assert(s.leads_to(end));
            }
        }
    }
}

/// Moving a workspace in all activities keeps the frame and the pool.
pub proof fn lemma_rehome_leads(
    s: LayoutModel,
    acts: Seq<ActivityId>,
    id: WorkspaceId,
    from: OutputId,
    to: OutputId,
)
    ensures
        s.leads_to(s.rehome(acts, id, from, to)),
        s.rehome(acts, id, from, to).pool == s.pool,
    decreases acts.len(),
{
    broadcast use crate::reclaim::lemma_with_view_leads;

    if acts.len() > 0 {
        lemma_rehome_leads(s, acts.drop_last(), id, from, to);
        let t = s.rehome(acts.drop_last(), id, from, to);
        crate::reconcile::lemma_drop_view_ids(t.acts, acts.last(), from);
        assert(t.leads_to(t.unshow(Stray { act: acts.last(), output: from, id })));
    }
}

impl Layout {
    /// Gives the active view of monitor `mon` the order of `v`, in which the entries between `low`
    /// and `high` have moved.
    fn rearrange(&mut self, mon: usize, v: WorkspaceView, low: usize, high: usize)
        requires
            mon < old(self)@.monitors.len(),
            old(self)@.active_view(old(self)@.monitors[mon as int].output.id) is Some,
            old(self)@.rearrange(mon as int, v@, low as int, high as int).fits(),
        ensures
            final(self)@ == old(self)@.rearrange(mon as int, v@, low as int, high as int),
    {
        broadcast use {
            crate::bookends::lemma_mint_into_leads,
            crate::reclaim::lemma_clean_up_leads,
            crate::reclaim::lemma_with_view_leads,
        };

        let ghost start = self@;
        let out = self.monitors[mon].output.id;
        let act = self.activities.active;
        let leading = self.monitors[mon].empty_workspace_above_first;
        let n: usize = v.len();
        let ghost arranged = v@;
        self.put_view(act, out, v);
        if n > 0 && high == n - 1 {
            self.add_workspace_bottom_on(mon);
        }
        if leading && low == 0 {
            proof {
                crate::transfer::lemma_view_after_set(start.acts, act, out, arranged);
                let s1 = start.with_view(act, out, arranged);
                if high == n - 1 {
                    crate::transfer::lemma_view_after_mint(s1, mon as int, act, n as int);
                }
            }
            self.add_workspace_top_on(mon);
        }
        self.monitors[mon].workspace_switch = None;
        self.clean_up_workspaces_on(mon);
    }

    /// Exchanges the active workspace with the one below.
    pub(crate) fn do_move_workspace_down(&mut self)
        requires
            old(self)@.monitors.len() > 0 ==> old(self)@.focused < old(self)@.monitors.len() && old(
                self)@.sink(old(self)@.focused).fits(),
        ensures
            final(self)@ == if old(self)@.monitors.len() == 0 {
                old(self)@
            } else {
                old(self)@.sink(old(self)@.focused)
            },
    {
        if self.monitors.len() == 0 {
            return;
        }
        let mon: usize = self.active_monitor_idx;
        let out = self.monitors[mon].output.id;
        if let Some(mut v) = self.copy_view(self.activities.active, out) {
            let a: usize = v.active_position();
            if a + 1 < v.len() {
                v.swap(a, a + 1);
                self.rearrange(mon, v, a, a + 1);
            }
        }
    }

    /// Exchanges the active workspace with the one above.
    pub(crate) fn do_move_workspace_up(&mut self)
        requires
            old(self)@.monitors.len() > 0 ==> old(self)@.focused < old(self)@.monitors.len() && old(
                self)@.raise(old(self)@.focused).fits(),
        ensures
            final(self)@ == if old(self)@.monitors.len() == 0 {
                old(self)@
            } else {
                old(self)@.raise(old(self)@.focused)
            },
    {
        if self.monitors.len() == 0 {
            return;
        }
        let mon: usize = self.active_monitor_idx;
        let out = self.monitors[mon].output.id;
        if let Some(mut v) = self.copy_view(self.activities.active, out) {
            let a: usize = v.active_position();
            if a > 0 && a < v.len() {
                v.swap(a, a - 1);
                self.rearrange(mon, v, a - 1, a);
            }
        }
    }

    /// Moves a workspace, or the active one, to place `new_idx` of its monitor. `reference` gives
    /// its place, and its output unless that is the focused one.
    pub(crate) fn do_move_workspace_to_idx(
        &mut self,
        reference: Option<(Option<OutputId>, usize)>,
        new_idx: usize,
    )
        requires
            old(self)@.monitors.len() > 0 ==> old(self)@.focused < old(self)@.monitors.len(),
            old(self)@.move_workspace_to_idx(reference_model(reference), new_idx as int).fits(),
        ensures
            final(self)@ == old(self)@.move_workspace_to_idx(
                reference_model(reference),
                new_idx as int,
            ),
    {
        if self.monitors.len() == 0 {
            return;
        }
        let (mon, from) = match reference {
            Some((out, idx)) => match out {
                Some(out) => match self.monitor_idx(out) {
                    Some(m) => (m, idx),
                    None => {
                        return;
                    },
                },
                None => (self.active_monitor_idx, idx),
            },
            None => self.active_place(self.active_monitor_idx),
        };
        let out = self.monitors[mon].output.id;
        if let Some(mut v) = self.copy_view(self.activities.active, out) {
            let n: usize = v.len();
            if n <= from {
                return;
            }
            let at: usize = if new_idx < n {
                new_idx
            } else {
                n - 1
            };
            if from == at {
                return;
            }
            v.move_within(from, at);
            if from < at {
                self.rearrange(mon, v, from, at);
            } else {
                self.rearrange(mon, v, at, from);
            }
        }
    }

    /// Moves activity `act`'s entry for workspace `id` from its view of `from` to its view of
    /// `to`.
    fn rehome_in(&mut self, act: ActivityId, id: WorkspaceId, from: OutputId, to: OutputId)
        ensures
            final(self)@ == old(self)@.rehome_in(act, id, from, to),
    {
        if act == self.activities.active {
            return;
        }
        let _was = self.unshow(Stray { act, output: from, id });
        if let Some(mut v) = self.copy_view(act, to) {
            let n: usize = v.len();
            if v.position_of(id).is_none() && n > 0 {
                v.insert(n - 1, id);
                self.put_view(act, to, v);
            }
        }
    }

    /// Moves the workspace at `old_idx` of output `old_output`, or of the focused one, to output
    /// `new_output`. Says whether the focus went with it.
    pub(crate) fn do_move_workspace_to_output_by_id(
        &mut self,
        old_idx: usize,
        old_output: Option<OutputId>,
        new_output: OutputId,
    ) -> (moved: bool)
        requires
            old(self)@.monitors.len() > 0 ==> {
                &&& old(self)@.focused < old(self)@.monitors.len()
                &&& old_output is Some ==> old(self)@.monitor_pos(old_output.unwrap()) is Some
                &&& old(self)@.monitor_pos(new_output) is Some
                &&& old(self)@.transfer(
                    old(self)@.source_monitor(old_output),
                    old_idx as int,
                    old(self)@.monitor_pos(new_output).unwrap(),
                ).fits()
            },
        ensures
            old(self)@.monitors.len() == 0 ==> !moved && final(self)@ == old(self)@,
            old(self)@.monitors.len() > 0 ==> {
                let mon = old(self)@.source_monitor(old_output);
                let mon2 = old(self)@.monitor_pos(new_output).unwrap();
                &&& final(self)@ == old(self)@.transfer(mon, old_idx as int, mon2)
                &&& moved == (mon != mon2 && old_idx < old(self)@.view_len(mon) && old(
                    self)@.is_focused_place(mon, old_idx as int))
            },
    {
        if self.monitors.len() == 0 {
            return false;
        }
        let mon: usize = match old_output {
            Some(out) => match self.monitor_idx(out) {
                Some(m) => m,
                None => {
                    return false;
                },
            },
            None => self.active_monitor_idx,
        };
        let mon2: usize = match self.monitor_idx(new_output) {
            Some(m) => m,
            None => {
                return false;
            },
        };
        if self.view_len(mon) <= old_idx {
            return false;
        }
        let from = self.monitors[mon].output.id;
        let to = self.monitors[mon2].output.id;
        if mon == mon2 {
            if let Some(v) = self.activities.view_on(self.activities.active, from) {
                let id = v.id_at(old_idx);
                self.workspaces.set_output(id, Some(to));
            }
            return false;
        }
        let activate = mon == self.active_monitor_idx && old_idx == self.active_place(mon).1;
        let at: usize = self.active_place(mon2).1 + 1;
        let ghost start = self@;
        let ghost moved_id = start.active_view(from).unwrap().ids[old_idx as int];
        let ghost s1 = start.hand_over(
            mon as int,
            old_idx as int,
            mon2 as int,
            at as int,
            moved_id,
            activate,
        );
        proof {
            lemma_rehome_leads(s1, s1.activities_of(moved_id), moved_id, from, to);
        }
        let id = self.hand_over(mon, old_idx, mon2, at, activate);
        self.rehome(id, from, to);
        if activate {
            self.active_monitor_idx = mon2;
        }
        activate
    }

    /// Moves the workspace at `idx` of monitor `mon` to place `at` of monitor `mon2` in the active
    /// activity, and returns it.
    fn hand_over(&mut self, mon: usize, idx: usize, mon2: usize, at: usize, activate: bool) -> (id:
        WorkspaceId)
        requires
            mon < old(self)@.monitors.len(),
            mon2 < old(self)@.monitors.len(),
            idx < old(self)@.view_len(mon as int),
            old(self)@.hand_over(
                mon as int,
                idx as int,
                mon2 as int,
                at as int,
                old(self)@.active_view(
                    old(self)@.monitors[mon as int].output.id,
                ).unwrap().ids[idx as int],
                activate,
            ).fits(),
        ensures
            id == old(self)@.active_view(
                old(self)@.monitors[mon as int].output.id,
            ).unwrap().ids[idx as int],
            final(self)@ == old(self)@.hand_over(
                mon as int,
                idx as int,
                mon2 as int,
                at as int,
                id,
                activate,
            ),
    {
        let to = self.monitors[mon2].output.id;
        let ghost start = self@;
        let ghost moved = start.active_view(start.monitors[mon as int].output.id).unwrap().ids[idx as int];
        let ghost s1 = start.detach(mon as int, idx as int);
        let ghost s2 = LayoutModel { pool: s1.pool.set_output(moved, Some(to)), ..s1 };
        proof {
            lemma_detach_leads(start, mon as int, idx as int);
            lemma_attach_leads(s2, mon2 as int, moved, at as int, activate);
        }
        match self.remove_workspace_from_monitor(mon, idx) {
            Some(id) => {
                self.workspaces.set_output(id, Some(to));
                self.insert_workspace_onto_monitor(mon2, id, at, activate);
                id
            },
            None => WorkspaceId(0),
        }
    }

    /// Moves the entries for workspace `id` from the views of output `from` to those of output
    /// `to` in all its activities but the active one.
    fn rehome(&mut self, id: WorkspaceId, from: OutputId, to: OutputId)
        ensures
            final(self)@ == old(self)@.rehome(old(self)@.activities_of(id), id, from, to),
    {
        let ghost start = self@;
        let acts = self.workspaces.activities_of(id);
        let mut i: usize = 0;
        while i < acts.len()
            invariant
                i <= acts@.len(),
                self@ == start.rehome(acts@.take(i as int), id, from, to),
            decreases acts@.len() - i,
        {
            self.rehome_in(acts[i], id, from, to);
            i = i + 1;
            assert(acts@.take(i as int).drop_last() =~= acts@.take(i - 1));
        }
        assert(acts@.take(i as int) =~= acts@);
    }

    /// Moves the active workspace to output `output`. Says whether the focus went with it.
    pub(crate) fn do_move_workspace_to_output(&mut self, output: OutputId) -> (moved: bool)
        requires
            old(self)@.monitors.len() > 0 ==> {
                &&& old(self)@.focused < old(self)@.monitors.len()
                &&& old(self)@.monitor_pos(output) is Some
                &&& old(self)@.transfer(
                    old(self)@.focused,
                    old(self)@.active_place(old(self)@.focused).1,
                    old(self)@.monitor_pos(output).unwrap(),
                ).fits()
            },
        ensures
            old(self)@.monitors.len() == 0 ==> !moved && final(self)@ == old(self)@,
            old(self)@.monitors.len() > 0 ==> {
                let mon = old(self)@.focused;
                let mon2 = old(self)@.monitor_pos(output).unwrap();
                let idx = old(self)@.active_place(mon).1;
                &&& final(self)@ == old(self)@.transfer(mon, idx, mon2)
                &&& moved == (mon != mon2 && idx < old(self)@.view_len(mon))
            },
    {
        if self.monitors.len() == 0 {
            return false;
        }
        let idx: usize = self.active_place(self.active_monitor_idx).1;
        self.do_move_workspace_to_output_by_id(idx, None, output)
    }

    /// The monitor on whose output some activity shows workspace `id`.
    fn monitor_holding(&self, id: WorkspaceId) -> (pos: Option<usize>)
        ensures
            match pos {
                Some(p) => self@.monitor_holding(id) == Some(p as int) && p < self@.monitors.len(),
                None => self@.monitor_holding(id) is None,
            },
    {
        let ghost q = self@.held_on(id);
        let mut i: usize = 0;
        while i < self.monitors.len()
            invariant
                i <= self.monitors@.len(),
                q == self@.held_on(id),
                crate::search::find(self@.monitors, q) == crate::search::find_from(
                    self@.monitors,
                    q,
                    i as int,
                ),
            decreases self.monitors@.len() - i,
        {
            if self.is_held_on(self.monitors[i].output.id, id) {
                return Some(i);
            }
            i = i + 1;
        }
        None
    }

    /// Whether some activity shows workspace `id` on output `out`.
    fn is_held_on(&self, out: OutputId, id: WorkspaceId) -> (b: bool)
        ensures
            b == (crate::search::find(self@.acts.list, holds_on(out, id)) is Some),
    {
        let ghost q = holds_on(out, id);
        let mut i: usize = 0;
        while i < self.activities.list.len()
            invariant
                i <= self.activities.list@.len(),
                q == holds_on(out, id),
                crate::search::find(self@.acts.list, q) == crate::search::find_from(
                    self@.acts.list,
                    q,
                    i as int,
                ),
            decreases self.activities.list@.len() - i,
        {
            assert(self@.acts.list[i as int] == self.activities.list@[i as int]@);
            if let Some(v) = self.activities.list[i].view_on(out) {
                if v.position_of(id).is_some() {
                    return true;
                }
            }
            i = i + 1;
        }
        false
    }

    /// Names the workspace that `reference` refers to, or the active one, unless a workspace has
    /// that name.
    pub(crate) fn do_set_workspace_name(&mut self, name: String, reference: Option<WorkspaceReference>)
        requires
            old(self)@.set_workspace_name(name@, reference).fits(),
        ensures
            final(self)@ == old(self)@.set_workspace_name(name@, reference),
    {
        broadcast use crate::bookends::lemma_mint_into_leads;

        if self.find_workspace_by_name(name.as_str()).is_some() {
            return;
        }
        let id = match self.resolve_workspace_ref_or_active(&reference) {
            Some(id) => id,
            None => {
                return;
            },
        };
        let ghost start = self@;
        self.workspaces.set_name(id, Some(name));
        let ghost s1 = self@;
        assert(s1 == LayoutModel { pool: start.pool.set_name(id, Some(name@)), ..start });
        if let Some(mon) = self.monitor_holding(id) {
            let out = self.monitors[mon].output.id;
            let act = self.activities.active;
            let leading = self.monitors[mon].empty_workspace_above_first;
            let (top, bottom) = match self.activities.view_on(act, out) {
                Some(v) => {
                    let n: usize = v.len();
                    (leading && n > 0 && v.id_at(0) == id, n > 0 && v.id_at(n - 1) == id)
                },
                None => (false, false),
            };
            proof {
                let s2 = if top {
                    s1.add_workspace_top(mon as int)
                } else {
                    s1
                };
                let s3 = if bottom {
                    s2.add_workspace_bottom(mon as int)
                } else {
                    s2
                };
                crate::bookends::lemma_normalize_leads(s3);
                if top {
                    crate::transfer::lemma_view_after_mint(s1, mon as int, act, 0);
                }
            }
            if top {
                self.add_workspace_top_on(mon);
            }
            if bottom {
                self.add_workspace_bottom_on(mon);
            }
            let _minted = self.normalize_view_bookends();
        }
    }

    /// Takes the name off the workspace that `reference` refers to, or off the active one.
    pub(crate) fn do_unset_workspace_name(&mut self, reference: Option<WorkspaceReference>)
        ensures
            final(self)@ == match old(self)@.referred_or_active(reference) {
                Some(id) => old(self)@.unname(id),
                None => old(self)@,
            },
    {
        if let Some(id) = self.resolve_workspace_ref_or_active(&reference) {
            self.do_unname_workspace_by_id(id);
        }
    }

    /// Takes the name off workspace `id`.
    pub(crate) fn do_unname_workspace_by_id(&mut self, id: WorkspaceId)
        ensures
            final(self)@ == old(self)@.unname(id),
    {
        if let Some(mon) = self.monitor_showing(id) {
            self.workspaces.set_name(id, None);
            self.tidy(mon);
            return;
        }
        if let Some(i) = self.parked_pos(id) {
            self.workspaces.set_name(id, None);
            let empty = match self.workspaces.get(id) {
                Some(w) => w.tiles.len() == 0,
                None => false,
            };
            if empty {
                self.workspaces.remove(id);
                let _gone = self.disconnected_workspace_ids.remove(i);
            }
        }
    }

    /// Takes the name off the workspace that `reference` refers to.
    pub(crate) fn do_unname_workspace_by_ref(&mut self, reference: WorkspaceReference)
        ensures
            final(self)@ == match old(self)@.referred(reference) {
                Some(id) => old(self)@.unname(id),
                None => old(self)@,
            },
    {
        if let Some(id) = self.find_workspace_by_ref(&reference) {
            self.do_unname_workspace_by_id(id);
        }
    }

    /// Makes the workspace at `idx` of the focused monitor active, or the last one.
    pub(crate) fn do_switch_workspace(&mut self, idx: usize)
        requires
            old(self)@.monitors.len() > 0 ==> old(self)@.focused < old(self)@.monitors.len(),
        ensures
            final(self)@ == old(self)@.switch_to(idx as int),
    {
        if self.monitors.len() == 0 {
            return;
        }
        let mon: usize = self.active_monitor_idx;
        let n: usize = self.view_len(mon);
        if n > 0 {
            let at: usize = if idx < n {
                idx
            } else {
                n - 1
            };
            self.activate_workspace(mon, at);
        }
    }

    /// Makes the workspace above the active one active.
    pub(crate) fn do_switch_workspace_up(&mut self)
        requires
            old(self)@.monitors.len() > 0 ==> old(self)@.focused < old(self)@.monitors.len(),
        ensures
            final(self)@ == old(self)@.switch_up(),
    {
        if self.monitors.len() == 0 {
            return;
        }
        let a: usize = self.active_place(self.active_monitor_idx).1;
        self.do_switch_workspace(
            if a > 0 {
                a - 1
            } else {
                0
            },
        );
    }

    /// Makes the workspace below the active one active.
    pub(crate) fn do_switch_workspace_down(&mut self)
        requires
            old(self)@.monitors.len() > 0 ==> old(self)@.focused < old(self)@.monitors.len(),
        ensures
            final(self)@ == old(self)@.switch_down(),
    {
        if self.monitors.len() == 0 {
            return;
        }
        let a: usize = self.active_place(self.active_monitor_idx).1;
        self.do_switch_workspace(a + 1);
    }

    /// Makes the workspace that was active before on the focused monitor active.
    pub(crate) fn do_switch_workspace_previous(&mut self)
        requires
            old(self)@.monitors.len() > 0 ==> old(self)@.focused < old(self)@.monitors.len(),
        ensures
            final(self)@ == old(self)@.switch_back(),
    {
        if self.monitors.len() == 0 {
            return;
        }
        let out = self.monitors[self.active_monitor_idx].output.id;
        let place: Option<usize> = match self.activities.view_on(self.activities.active, out) {
            Some(v) => match v.previous() {
                Some(p) => v.position_of(p),
                None => None,
            },
            None => None,
        };
        if let Some(i) = place {
            self.do_switch_workspace(i);
        }
    }

    /// Makes the workspace at `idx` of the focused monitor active; if it is, the one before.
    pub(crate) fn do_switch_workspace_auto_back_and_forth(&mut self, idx: usize)
        requires
            old(self)@.monitors.len() > 0 ==> old(self)@.focused < old(self)@.monitors.len(),
        ensures
            final(self)@ == old(self)@.switch_to_or_back(idx as int),
    {
        if self.monitors.len() == 0 {
            return;
        }
        let mon: usize = self.active_monitor_idx;
        let n: usize = self.view_len(mon);
        if n == 0 {
            return;
        }
        let at: usize = if idx < n {
            idx
        } else {
            n - 1
        };
        if at == self.active_place(mon).1 {
            self.do_switch_workspace_previous();
        } else {
            self.do_switch_workspace(at);
        }
    }
}

/// The same reference with a mathematical place.
pub open spec fn reference_model(r: Option<(Option<OutputId>, usize)>) -> Option<
    (Option<OutputId>, int),
> {
    match r {
        Some((out, idx)) => Some((out, idx as int)),
        None => None,
    }
}

impl LayoutModel {
    /// A workspace moved to place `to` of its monitor.
    pub open spec fn move_workspace_to_idx(self, r: Option<(Option<OutputId>, int)>, to: int) -> LayoutModel {
        if self.monitors.len() == 0 {
            self
        } else {
            match self.reorder_place(r) {
                Some((mon, from)) => self.relocate(mon, from, to),
                None => self,
            }
        }
    }

    /// The monitor of output `out`, or the focused one.
    pub open spec fn source_monitor(self, out: Option<OutputId>) -> int {
        match out {
            Some(out) => self.monitor_pos(out).unwrap(),
            None => self.focused,
        }
    }
}

/// Detaching a workspace keeps the frame.
pub proof fn lemma_detach_leads(s: LayoutModel, mon: int, idx: int)
    requires
        0 <= mon < s.monitors.len(),
    ensures
        s.leads_to(s.detach(mon, idx)),
{
    broadcast use crate::bookends::lemma_mint_into_leads;

    let s1 = s.detach_prepared(mon, idx);
    assert(s.leads_to(s1));
    let m = s1.monitors[mon];
    let pos = if m.empty_workspace_above_first && idx == 0 {
        1
    } else {
        idx
    };
    if let Some(v) = s1.active_view(m.output.id) {
        if pos < v.ids.len() {
            let s2 = s1.with_view(s1.acts.active, m.output.id, v.remove_at(pos));
            crate::reclaim::lemma_with_view_leads(s1, s1.acts.active, m.output.id, v.remove_at(pos));
            let s3 = LayoutModel { pool: s2.pool.unbind(v.ids[pos]), ..s2 };
            assert(s1.leads_to(s3.settle(mon)));
            crate::reclaim::lemma_clean_up_leads(s3.settle(mon), mon);
            assert(s.leads_to(s3.settle(mon).clean_up(mon)));
        }
    }
}

} // verus!
