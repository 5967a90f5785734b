//! Finding workspaces, activities and monitors.

use vstd::prelude::*;

use crate::activity::ActivityModel;
use crate::ids::{ActivityId, OutputId, WindowId, WorkspaceId};
use crate::layout::{Layout, LayoutModel};
use crate::monitor::Monitor;
use crate::pool::PoolModel;
use crate::text::same_name;
use crate::view::WorkspaceView;
use crate::workspace::{Output, Workspace, WorkspaceModel};

verus! {

/// How a user refers to a workspace.
#[derive(Clone, Debug, PartialEq, Eq)]
pub enum WorkspaceReference {
    /// By its number.
    Id(u64),
    /// By its place on the focused monitor, counted from one.
    Index(u8),
    /// By its name, in any case.
    Name(String),
}

/// How a user refers to an activity.
#[derive(Clone, Debug, PartialEq, Eq)]
pub enum ActivityReferenceArg {
    /// By its number.
    Id(u64),
    /// By its exact name.
    Name(String),
}

/// Why a workspace could not be focused within an activity.
#[derive(Clone, Copy, Debug, PartialEq, Eq, Structural)]
pub enum FocusWorkspaceInActivityError {
    /// No workspace of the activity matches.
    WorkspaceNotInActivity,
    /// Places on a monitor mean nothing within an activity.
    IndexUnsupported,
}

/// Whether workspace `w` is called `name`, in any case.
pub open spec fn called(w: WorkspaceModel, name: Seq<char>) -> bool {
    match w.name {
        Some(n) => same_name(n, name),
        None => false,
    }
}

/// The predicate that picks the workspaces called `name`.
pub open spec fn by_name(name: Seq<char>) -> spec_fn(WorkspaceModel) -> bool {
    |w: WorkspaceModel| called(w, name)
}

/// The predicate that picks the workspaces of activity `act` called `name`.
pub open spec fn by_name_in(act: ActivityId, name: Seq<char>) -> spec_fn(WorkspaceModel) -> bool {
    |w: WorkspaceModel| w.activities.contains(act) && called(w, name)
}

/// The predicate that picks the ids of workspaces called `name`.
pub open spec fn id_by_name(pool: PoolModel, name: Seq<char>) -> spec_fn(WorkspaceId) -> bool {
    |id: WorkspaceId|
        match pool.get(id) {
            Some(w) => called(w, name),
            None => false,
        }
}

/// The predicate that picks the workspaces that show window `w`.
pub open spec fn having(w: WindowId) -> spec_fn(WorkspaceModel) -> bool {
    |ws: WorkspaceModel| ws.has_window(w)
}

/// The predicate that picks the activity with the exact name `name`.
pub open spec fn titled(name: Seq<char>) -> spec_fn(ActivityModel) -> bool {
    |a: ActivityModel| a.name == name
}

impl PoolModel {
    /// The oldest workspace that satisfies `p`.
    pub open spec fn first(self, p: spec_fn(WorkspaceModel) -> bool) -> Option<WorkspaceId> {
        match crate::search::find(self.items, p) {
            Some(i) => Some(self.items[i].id),
            None => None,
        }
    }
}

impl LayoutModel {
    /// The workspace that has the focus.
    pub open spec fn active_workspace(self) -> Option<WorkspaceId> {
        if 0 <= self.focused < self.monitors.len() {
            match self.active_view(self.monitors[self.focused].output.id) {
                Some(v) => Some(v.active),
                None => None,
            }
        } else {
            None
        }
    }

    /// The predicate that picks the monitors that show workspace `id`.
    pub open spec fn showing(self, id: WorkspaceId) -> spec_fn(Monitor) -> bool {
        |m: Monitor|
            match self.active_view(m.output.id) {
                Some(v) => v.position_of(id) is Some,
                None => false,
            }
    }

    /// Position of the first monitor that shows workspace `id`.
    pub open spec fn monitor_showing(self, id: WorkspaceId) -> Option<int> {
        crate::search::find(self.monitors, self.showing(id))
    }

    /// The predicate that picks the monitors that show a workspace called `name`.
    pub open spec fn showing_name(self, name: Seq<char>) -> spec_fn(Monitor) -> bool {
        |m: Monitor|
            match self.active_view(m.output.id) {
                Some(v) => crate::search::find(v.ids, id_by_name(self.pool, name)) is Some,
                None => false,
            }
    }

    /// Place and id of the workspace `id` among what the active activity shows or is parked.
    pub open spec fn place_of(self, id: WorkspaceId) -> Option<int> {
        match self.monitor_showing(id) {
            Some(m) => self.active_view(self.monitors[m].output.id).unwrap().position_of(id),
            None => crate::search::find(self.parked, crate::search::equal_to(id)),
        }
    }

    /// Place and id of the workspace called `name` among what the active activity shows or is
    /// parked.
    pub open spec fn named_workspace(self, name: Seq<char>) -> Option<(int, WorkspaceId)> {
        let p = id_by_name(self.pool, name);
        match crate::search::find(self.monitors, self.showing_name(name)) {
            Some(m) => {
                let ids = self.active_view(self.monitors[m].output.id).unwrap().ids;
                let i = crate::search::find(ids, p).unwrap();
                Some((i, ids[i]))
            },
            None => match crate::search::find(self.parked, p) {
                Some(i) => Some((i, self.parked[i])),
                None => None,
            },
        }
    }

    /// The workspace that `r` refers to.
    pub open spec fn referred(self, r: WorkspaceReference) -> Option<WorkspaceId> {
        match r {
            WorkspaceReference::Id(raw) => if self.pool.has(WorkspaceId(raw)) {
                Some(WorkspaceId(raw))
            } else {
                None
            },
            WorkspaceReference::Name(name) => self.pool.first(by_name(name@)),
            WorkspaceReference::Index(n) => if 0 <= self.focused < self.monitors.len() {
                match self.active_view(self.monitors[self.focused].output.id) {
                    Some(v) => {
                        let i: int = if n > 0 {
                            n - 1
                        } else {
                            0
                        };
                        if i < v.ids.len() && self.pool.has(v.ids[i]) {
                            Some(v.ids[i])
                        } else {
                            None
                        }
                    },
                    None => None,
                }
            } else {
                None
            },
        }
    }

    /// The workspace that `r` refers to, or the focused one if there is no reference.
    pub open spec fn referred_or_active(self, r: Option<WorkspaceReference>) -> Option<WorkspaceId> {
        match r {
            Some(r) => self.referred(r),
            None => match self.active_workspace() {
                Some(id) => if self.pool.has(id) {
                    Some(id)
                } else {
                    None
                },
                None => None,
            },
        }
    }

    /// The workspace of activity `act` that `r` refers to, or why there is none.
    pub open spec fn referred_in(self, act: ActivityId, r: WorkspaceReference) -> Result<
        WorkspaceId,
        FocusWorkspaceInActivityError,
    > {
        match r {
            WorkspaceReference::Index(_) => Err(FocusWorkspaceInActivityError::IndexUnsupported),
            WorkspaceReference::Id(raw) => if self.pool.member(WorkspaceId(raw), act) {
                Ok(WorkspaceId(raw))
            } else {
                Err(FocusWorkspaceInActivityError::WorkspaceNotInActivity)
            },
            WorkspaceReference::Name(name) => match self.pool.first(by_name_in(act, name@)) {
                Some(id) => Ok(id),
                None => Err(FocusWorkspaceInActivityError::WorkspaceNotInActivity),
            },
        }
    }

    /// The activity that `r` refers to.
    pub open spec fn referred_activity(self, r: ActivityReferenceArg) -> Option<ActivityId> {
        match r {
            ActivityReferenceArg::Id(raw) => if self.acts.has(ActivityId(raw)) {
                Some(ActivityId(raw))
            } else {
                None
            },
            ActivityReferenceArg::Name(name) => match crate::search::find(
                self.acts.list,
                titled(name@),
            ) {
                Some(i) => Some(self.acts.list[i].id),
                None => None,
            },
        }
    }
}

impl FocusWorkspaceInActivityError {
    /// The message for the user.
    pub open spec fn message(self) -> Seq<char> {
        match self {
            FocusWorkspaceInActivityError::WorkspaceNotInActivity => "workspace does not belong to the given activity"@,
            FocusWorkspaceInActivityError::IndexUnsupported => "index references are not supported with --activity; use a name or id:N"@,
        }
    }

    /// The message for the user.
    pub fn describe(&self) -> (s: String)
        ensures
            s@ == self.message(),
    {
        match self {
            FocusWorkspaceInActivityError::WorkspaceNotInActivity => "workspace does not belong to the given activity".to_owned(),
            FocusWorkspaceInActivityError::IndexUnsupported => "index references are not supported with --activity; use a name or id:N".to_owned(),
        }
    }
}

impl Workspace {
    /// Whether the workspace is called `name`, in any case.
    pub fn is_called(&self, name: &str) -> (b: bool)
        ensures
            b == called(self@, name@),
    {
        match &self.name {
            Some(n) => crate::text::eq_ignore_ascii_case(n.as_str(), name),
            None => false,
        }
    }
}

impl Layout {
    /// The workspace that has the focus.
    pub fn active_workspace_id(&self) -> (id: Option<WorkspaceId>)
        ensures
            id == self@.active_workspace(),
    {
        if self.active_monitor_idx < self.monitors.len() {
            let out = self.monitors[self.active_monitor_idx].output.id;
            match self.activities.view_on(self.activities.active, out) {
                Some(v) => Some(v.active()),
                None => None,
            }
        } else {
            None
        }
    }

    /// The workspace that has the focus.
    pub fn active_workspace(&self) -> (w: Option<&Workspace>)
        ensures
            match w {
                Some(w) => self@.active_workspace() == Some(w.id) && self@.pool.get(w.id) == Some(
                    w@,
                ),
                None => match self@.active_workspace() {
                    Some(id) => !self@.pool.has(id),
                    None => true,
                },
            },
    {
        match self.active_workspace_id() {
            Some(id) => self.workspaces.get(id),
            None => None,
        }
    }

    /// The output that has the focus.
    pub fn active_output(&self) -> (o: Option<Output>)
        ensures
            o == if 0 <= self@.focused < self@.monitors.len() {
                Some(self@.monitors[self@.focused].output)
            } else {
                None
            },
    {
        if self.active_monitor_idx < self.monitors.len() {
            Some(self.monitors[self.active_monitor_idx].output)
        } else {
            None
        }
    }

    /// Index of the first monitor that shows workspace `id`.
    pub fn monitor_showing(&self, id: WorkspaceId) -> (pos: Option<usize>)
        ensures
            match pos {
                Some(p) => self@.monitor_showing(id) == Some(p as int) && p < self@.monitors.len()
                    && self@.showing(id)(self@.monitors[p as int]),
                None => self@.monitor_showing(id) is None,
            },
    {
        let ghost p = self@.showing(id);
        let mut i: usize = 0;
        while i < self.monitors.len()
            invariant
                i <= self.monitors@.len(),
                p == self@.showing(id),
                crate::search::find(self.monitors@, p) == crate::search::find_from(
                    self.monitors@,
                    p,
                    i as int,
                ),
            decreases self.monitors@.len() - i,
        {
            if let Some(v) = self.activities.view_on(
                self.activities.active,
                self.monitors[i].output.id,
            ) {
                if v.position_of(id).is_some() {
                    return Some(i);
                }
            }
            i = i + 1;
        }
        None
    }

    /// The output that shows workspace `id` to the active activity.
    pub fn output_for_workspace(&self, id: WorkspaceId) -> (o: Option<Output>)
        ensures
            o == match self@.monitor_showing(id) {
                Some(m) => Some(self@.monitors[m].output),
                None => None,
            },
    {
        match self.monitor_showing(id) {
            Some(m) => Some(self.monitors[m].output),
            None => None,
        }
    }

    /// Index of `id` among the parked workspaces.
    pub fn parked_pos(&self, id: WorkspaceId) -> (pos: Option<usize>)
        ensures
            match pos {
                Some(p) => crate::search::find(self@.parked, crate::search::equal_to(id)) == Some(
                    p as int,
                ) && p < self@.parked.len() && self@.parked[p as int] == id,
                None => crate::search::find(self@.parked, crate::search::equal_to(id)) is None,
            },
    {
        let ghost q = crate::search::equal_to(id);
        let mut i: usize = 0;
        while i < self.disconnected_workspace_ids.len()
            invariant
                i <= self.disconnected_workspace_ids@.len(),
                q == crate::search::equal_to(id),
                crate::search::find(self@.parked, q) == crate::search::find_from(
                    self@.parked,
                    q,
                    i as int,
                ),
            decreases self.disconnected_workspace_ids@.len() - i,
        {
            if self.disconnected_workspace_ids[i] == id {
                return Some(i);
            }
            i = i + 1;
        }
        None
    }

    /// Where the active activity shows workspace `id`, or where it is parked.
    pub fn find_workspace_by_id(&self, id: WorkspaceId) -> (pos: Option<usize>)
        ensures
            match pos {
                Some(p) => self@.place_of(id) == Some(p as int),
                None => self@.place_of(id) is None,
            },
    {
        match self.monitor_showing(id) {
            Some(m) => match self.activities.view_on(
                self.activities.active,
                self.monitors[m].output.id,
            ) {
                Some(v) => v.position_of(id),
                None => None,
            },
            None => self.parked_pos(id),
        }
    }

    /// Whether workspace `id` is called `name`.
    fn id_is_called(&self, id: WorkspaceId, name: &str) -> (b: bool)
        ensures
            b == id_by_name(self@.pool, name@)(id),
    {
        match self.workspaces.get(id) {
            Some(w) => w.is_called(name),
            None => false,
        }
    }

    /// Position of the first of `ids` that is called `name`.
    fn first_called(&self, ids: &Vec<WorkspaceId>, name: &str) -> (pos: Option<usize>)
        ensures
            match pos {
                Some(p) => crate::search::find(ids@, id_by_name(self@.pool, name@)) == Some(
                    p as int,
                ) && p < ids@.len(),
                None => crate::search::find(ids@, id_by_name(self@.pool, name@)) is None,
            },
    {
        let ghost q = id_by_name(self@.pool, name@);
        let mut i: usize = 0;
        while i < ids.len()
            invariant
                i <= ids@.len(),
                q == id_by_name(self@.pool, name@),
                crate::search::find(ids@, q) == crate::search::find_from(ids@, q, i as int),
            decreases ids@.len() - i,
        {
            if self.id_is_called(ids[i], name) {
                return Some(i);
            }
            i = i + 1;
        }
        None
    }

    /// Index of the monitor that shows a workspace called `name`.
    fn monitor_showing_name(&self, name: &str) -> (pos: Option<usize>)
        ensures
            match pos {
                Some(p) => crate::search::find(self@.monitors, self@.showing_name(name@)) == Some(
                    p as int,
                ) && p < self@.monitors.len() && self@.showing_name(name@)(
                    self@.monitors[p as int],
                ),
                None => crate::search::find(self@.monitors, self@.showing_name(name@)) is None,
            },
    {
        let ghost q = self@.showing_name(name@);
        let mut i: usize = 0;
        while i < self.monitors.len()
            invariant
                i <= self.monitors@.len(),
                q == self@.showing_name(name@),
                crate::search::find(self.monitors@, q) == crate::search::find_from(
                    self.monitors@,
                    q,
                    i as int,
                ),
            decreases self.monitors@.len() - i,
        {
            if let Some(v) = self.activities.view_on(
                self.activities.active,
                self.monitors[i].output.id,
            ) {
                if self.first_called(v.ids(), name).is_some() {
                    return Some(i);
                }
            }
            i = i + 1;
        }
        None
    }

    /// The monitor that shows a workspace called `name` to the active activity.
    pub fn monitor_for_workspace(&self, name: &str) -> (m: Option<&Monitor>)
        ensures
            match m {
                Some(m) => crate::search::find(self@.monitors, self@.showing_name(name@)) is Some
                    && *m == self@.monitors[crate::search::find(
                    self@.monitors,
                    self@.showing_name(name@),
                ).unwrap()],
                None => crate::search::find(self@.monitors, self@.showing_name(name@)) is None,
            },
    {
        match self.monitor_showing_name(name) {
            Some(i) => Some(&self.monitors[i]),
            None => None,
        }
    }

    /// Place and id of the workspace called `name` among what the active activity shows or is
    /// parked.
    pub fn find_workspace_by_name(&self, name: &str) -> (r: Option<(usize, WorkspaceId)>)
        ensures
            match r {
                Some(r) => self@.named_workspace(name@) == Some((r.0 as int, r.1)),
                None => self@.named_workspace(name@) is None,
            },
    {
        match self.monitor_showing_name(name) {
            Some(m) => {
                match self.activities.view_on(
                    self.activities.active,
                    self.monitors[m].output.id,
                ) {
                    Some(v) => match self.first_called(v.ids(), name) {
                        Some(i) => Some((i, v.id_at(i))),
                        None => None,
                    },
                    None => None,
                }
            },
            None => match self.first_called(&self.disconnected_workspace_ids, name) {
                Some(i) => Some((i, self.disconnected_workspace_ids[i])),
                None => None,
            },
        }
    }

    /// The oldest workspace called `name`, in any activity.
    pub(crate) fn first_by_name(&self, name: &str) -> (id: Option<WorkspaceId>)
        ensures
            id == self@.pool.first(by_name(name@)),
    {
        let ghost q = by_name(name@);
        let mut i: usize = 0;
        while i < self.workspaces.items.len()
            invariant
                i <= self.workspaces.items@.len(),
                q == by_name(name@),
                crate::search::find(self@.pool.items, q) == crate::search::find_from(
                    self@.pool.items,
                    q,
                    i as int,
                ),
            decreases self.workspaces.items@.len() - i,
        {
            assert(self@.pool.items[i as int] == self.workspaces.items@[i as int]@);
            if self.workspaces.items[i].is_called(name) {
                return Some(self.workspaces.items[i].id);
            }
            i = i + 1;
        }
        None
    }

    /// The oldest workspace of activity `act` called `name`.
    pub fn find_workspace_in_activity_by_name(&self, name: &str, act: ActivityId) -> (id: Option<
        WorkspaceId,
    >)
        ensures
            id == self@.pool.first(by_name_in(act, name@)),
    {
        let ghost q = by_name_in(act, name@);
        let mut i: usize = 0;
        while i < self.workspaces.items.len()
            invariant
                i <= self.workspaces.items@.len(),
                q == by_name_in(act, name@),
                crate::search::find(self@.pool.items, q) == crate::search::find_from(
                    self@.pool.items,
                    q,
                    i as int,
                ),
            decreases self.workspaces.items@.len() - i,
        {
            assert(self@.pool.items[i as int] == self.workspaces.items@[i as int]@);
            if self.workspaces.items[i].belongs_to(act) && self.workspaces.items[i].is_called(
                name,
            ) {
                return Some(self.workspaces.items[i].id);
            }
            i = i + 1;
        }
        None
    }

    /// Index of the connected monitor that the oldest workspace of activity `act` called `name`
    /// is routed to.
    pub fn monitor_for_workspace_in_activity(&self, name: &str, act: ActivityId) -> (m: Option<
        usize,
    >)
        ensures
            match self@.pool.first(by_name_in(act, name@)) {
                Some(id) => match self@.pool.get(id) {
                    Some(w) => match w.output_id {
                        Some(out) => match m {
                            Some(i) => self@.monitor_pos(out) == Some(i as int),
                            None => self@.monitor_pos(out) is None,
                        },
                        None => m is None,
                    },
                    None => m is None,
                },
                None => m is None,
            },
    {
        match self.find_workspace_in_activity_by_name(name, act) {
            Some(id) => match self.workspaces.get(id) {
                Some(w) => match w.output_id {
                    Some(out) => self.monitor_idx(out),
                    None => None,
                },
                None => None,
            },
            None => None,
        }
    }

    /// The workspace with the number `raw`, in any activity.
    pub fn resolve_workspace_id(&self, raw: u64) -> (id: Option<WorkspaceId>)
        ensures
            id == if self@.pool.has(WorkspaceId(raw)) {
                Some(WorkspaceId(raw))
            } else {
                None
            },
    {
        if self.workspaces.contains(WorkspaceId(raw)) {
            Some(WorkspaceId(raw))
        } else {
            None
        }
    }

    /// The workspace that `r` refers to.
    pub fn find_workspace_by_ref(&self, r: &WorkspaceReference) -> (id: Option<WorkspaceId>)
        ensures
            id == self@.referred(*r),
    {
        match r {
            WorkspaceReference::Id(raw) => self.resolve_workspace_id(*raw),
            WorkspaceReference::Name(name) => self.first_by_name(name.as_str()),
            WorkspaceReference::Index(n) => {
                if self.active_monitor_idx >= self.monitors.len() {
                    return None;
                }
                let out = self.monitors[self.active_monitor_idx].output.id;
                match self.activities.view_on(self.activities.active, out) {
                    Some(v) => {
                        let i: usize = if *n > 0 {
                            (*n - 1) as usize
                        } else {
                            0
                        };
                        if i < v.len() && self.workspaces.contains(v.id_at(i)) {
                            Some(v.id_at(i))
                        } else {
                            None
                        }
                    },
                    None => None,
                }
            },
        }
    }

    /// The workspace that `r` refers to, or the focused one if there is no reference.
    pub fn resolve_workspace_ref_or_active(&self, r: &Option<WorkspaceReference>) -> (id: Option<
        WorkspaceId,
    >)
        ensures
            id == self@.referred_or_active(*r),
            id is Some ==> self@.pool.has(id.unwrap()),
    {
        match r {
            Some(r) => {
                let id = self.find_workspace_by_ref(r);
                proof {
                    if let WorkspaceReference::Name(name) = r {
                        lemma_first_is_there(self@.pool, by_name(name@));
                    }
                }
                id
            },
            None => match self.active_workspace_id() {
                Some(id) => if self.workspaces.contains(id) {
                    Some(id)
                } else {
                    None
                },
                None => None,
            },
        }
    }

    /// The workspace of activity `act` that `r` refers to, or why there is none.
    pub fn resolve_workspace_in_activity(&self, act: ActivityId, r: &WorkspaceReference) -> (res:
        Result<WorkspaceId, FocusWorkspaceInActivityError>)
        ensures
            res == self@.referred_in(act, *r),
    {
        match r {
            WorkspaceReference::Index(_) => Err(FocusWorkspaceInActivityError::IndexUnsupported),
            WorkspaceReference::Id(raw) => if self.workspaces.is_member(WorkspaceId(*raw), act) {
                Ok(WorkspaceId(*raw))
            } else {
                Err(FocusWorkspaceInActivityError::WorkspaceNotInActivity)
            },
            WorkspaceReference::Name(name) => match self.find_workspace_in_activity_by_name(
                name.as_str(),
                act,
            ) {
                Some(id) => Ok(id),
                None => Err(FocusWorkspaceInActivityError::WorkspaceNotInActivity),
            },
        }
    }

    /// The activity that `r` refers to.
    pub fn resolve_activity_ref(&self, r: &ActivityReferenceArg) -> (id: Option<ActivityId>)
        ensures
            id == self@.referred_activity(*r),
            id is Some ==> self@.acts.has(id.unwrap()),
    {
        match r {
            ActivityReferenceArg::Id(raw) => if self.activities.contains(ActivityId(*raw)) {
                Some(ActivityId(*raw))
            } else {
                None
            },
            ActivityReferenceArg::Name(name) => self.activity_titled(name.as_str()),
        }
    }

    /// The activity with the exact name `name`.
    fn activity_titled(&self, name: &str) -> (id: Option<ActivityId>)
        ensures
            id == match crate::search::find(self@.acts.list, titled(name@)) {
                Some(i) => Some(self@.acts.list[i].id),
                None => None,
            },
            id is Some ==> self@.acts.has(id.unwrap()),
    {
        let ghost q = titled(name@);
        let mut i: usize = 0;
        while i < self.activities.list.len()
            invariant
                i <= self.activities.list@.len(),
                q == titled(name@),
                crate::search::find(self@.acts.list, q) == crate::search::find_from(
                    self@.acts.list,
                    q,
                    i as int,
                ),
            decreases self.activities.list@.len() - i,
        {
            let a = &self.activities.list[i];
            assert(self@.acts.list[i as int] == a@);
            let here = crate::text::eq_exact(a.name.as_str(), name);
            assert(here == q(self@.acts.list[i as int]));
            if here {
                proof {
                    crate::search::lemma_find_from(
                        self@.acts.list,
                        crate::activity::named(a.id),
                        0,
                    );
                }
                return Some(a.id);
            }
            i = i + 1;
        }
        None
    }

    /// The oldest workspace that shows window `w`, in any activity.
    pub fn window_ws_and_activity_hint(&self, w: WindowId) -> (id: Option<WorkspaceId>)
        ensures
            id == self@.pool.first(having(w)),
            id is Some ==> self@.pool.has(id.unwrap()),
    {
        let ghost q = having(w);
        let mut i: usize = 0;
        while i < self.workspaces.items.len()
            invariant
                i <= self.workspaces.items@.len(),
                q == having(w),
                crate::search::find(self@.pool.items, q) == crate::search::find_from(
                    self@.pool.items,
                    q,
                    i as int,
                ),
            decreases self.workspaces.items@.len() - i,
        {
            assert(self@.pool.items[i as int] == self.workspaces.items@[i as int]@);
            if self.workspaces.items[i].has_window(w) {
                proof {
                    lemma_first_is_there(self@.pool, q);
                }
                return Some(self.workspaces.items[i].id);
            }
            i = i + 1;
        }
        None
    }

    /// Activity `act`'s view of output `out`.
    pub fn view_for(&self, act: ActivityId, out: OutputId) -> (v: Option<&WorkspaceView>)
        ensures
            match v {
                Some(v) => self@.view_of(act, out) == Some(v@),
                None => self@.view_of(act, out) is None,
            },
    {
        self.activities.view_on(act, out)
    }

    /// The active activity's view of output `out`.
    pub fn active_view(&self, out: OutputId) -> (v: &WorkspaceView)
        requires
            self@.active_view(out) is Some,
        ensures
            self@.active_view(out) == Some(v@),
    {
        self.activities.view_on(self.activities.active, out).unwrap()
    }

    /// The monitor for output `out`.
    pub fn monitor_for_output(&self, out: OutputId) -> (m: Option<&Monitor>)
        ensures
            match m {
                Some(m) => self@.monitor_pos(out) is Some && *m
                    == self@.monitors[self@.monitor_pos(out).unwrap()],
                None => self@.monitor_pos(out) is None,
            },
    {
        match self.monitor_idx(out) {
            Some(i) => Some(&self.monitors[i]),
            None => None,
        }
    }

    /// The connected outputs.
    pub fn outputs(&self) -> (r: Vec<Output>)
        ensures
            r@ == Seq::new(self@.monitors.len(), |i: int| self@.monitors[i].output),
    {
        let mut r: Vec<Output> = Vec::new();
        let mut i: usize = 0;
        while i < self.monitors.len()
            invariant
                i <= self.monitors@.len(),
                r@.len() == i,
                forall|j: int| 0 <= j < i ==> #[trigger] r@[j] == self.monitors@[j].output,
            decreases self.monitors@.len() - i,
        {
            r.push(self.monitors[i].output);
            i = i + 1;
        }
        assert(r@ =~= Seq::new(self@.monitors.len(), |i: int| self@.monitors[i].output));
        r
    }
}

/// A workspace that a search finds is in the pool.
pub proof fn lemma_first_is_there(p: PoolModel, q: spec_fn(WorkspaceModel) -> bool)
    ensures
        match p.first(q) {
            Some(id) => p.has(id),
            None => true,
        },
{
    crate::search::lemma_find_from(p.items, q, 0);
    if let Some(i) = crate::search::find(p.items, q) {
        crate::search::lemma_find_from(p.items, crate::pool::has_id(p.items[i].id), 0);
    }
}

} // verus!
