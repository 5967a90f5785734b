//! Bringing the activities and workspaces in line with a configuration that changed.

use vstd::prelude::*;

use crate::activity::{Activities, ActivitiesModel, Activity, ActivityModel, EntryModel, ViewEntry};
use crate::config::{
    activity_ids, among, decl_models, declaration_of, declares, is_among,
    resolve_workspace_activities_for, texts, WorkspaceDecl, WorkspaceDeclModel,
};
use crate::errors::ActivitySwitchBlock;
use crate::ids::{ActivityId, OutputId, WorkspaceId};
use crate::layout::{Layout, LayoutModel};
use crate::materialize::ids_of;
use crate::membership::lists;
use crate::pool::{PoolModel, WorkspacePool};
use crate::reconcile::Stray;
use crate::monitor::Monitor;
use crate::switching::{clashing, elsewhere, in_activity, owned_by};
use crate::text::eq_ignore_ascii_case;
use crate::workspace::{Workspace, WorkspaceModel};

verus! {

/// Mathematical model of a [`ReloadActivityRemovalError`].
pub enum Refusal {
    ExclusiveWorkspaceHasWindows { activity_name: Seq<char>, workspace_id: WorkspaceId },
    WouldEmptyPool { activity_name: Seq<char> },
    HardBlockedCascade { activity_name: Seq<char>, block: ActivitySwitchBlock },
}

/// Why the activities that left the configuration cannot be removed.
#[derive(Clone, Debug, PartialEq, Eq)]
pub enum ReloadActivityRemovalError {
    /// A workspace that belongs to one of them alone has windows.
    ExclusiveWorkspaceHasWindows {
        /// The activity.
        activity_name: String,
        /// The workspace.
        workspace_id: WorkspaceId,
    },
    /// No activity would be left.
    WouldEmptyPool {
        /// One of them.
        activity_name: String,
    },
    /// The active one is among them, and switching away is not possible now.
    HardBlockedCascade {
        /// The activity.
        activity_name: String,
        /// What the user is doing.
        block: ActivitySwitchBlock,
    },
}

impl View for ReloadActivityRemovalError {
    type V = Refusal;

    open spec fn view(&self) -> Refusal {
        match self {
            ReloadActivityRemovalError::ExclusiveWorkspaceHasWindows {
                activity_name,
                workspace_id,
            } => Refusal::ExclusiveWorkspaceHasWindows {
                activity_name: activity_name@,
                workspace_id: *workspace_id,
            },
            ReloadActivityRemovalError::WouldEmptyPool { activity_name } => Refusal::WouldEmptyPool {
                activity_name: activity_name@,
            },
            ReloadActivityRemovalError::HardBlockedCascade { activity_name, block } =>
                Refusal::HardBlockedCascade { activity_name: activity_name@, block: *block },
        }
    }
}

/// The predicate that picks the activities that the configuration declared and no longer does.
pub open spec fn obsolete(names: Seq<Seq<char>>) -> spec_fn(ActivityModel) -> bool {
    |a: ActivityModel| a.declared && !among(names, a.name)
}

/// The predicate that picks the workspaces with windows that belong to one of `gone` alone.
pub open spec fn stranded(gone: Seq<ActivityId>) -> spec_fn(WorkspaceModel) -> bool {
    |w: WorkspaceModel|
        w.activities.len() == 1 && gone.contains(w.activities[0]) && w.tiles.len() > 0
}

/// Position of the workspace with the least id among those that `p` picks.
pub open spec fn least(items: Seq<WorkspaceModel>, p: spec_fn(WorkspaceModel) -> bool) -> Option<int>
    decreases items.len(),
{
    if items.len() == 0 {
        None
    } else {
        let rest = least(items.drop_last(), p);
        if p(items.last()) && (rest is None || items.last().id.0 < items[rest.unwrap()].id.0) {
            Some(items.len() - 1)
        } else {
            rest
        }
    }
}

/// The least of `ids`, which are not empty.
pub open spec fn least_id(ids: Seq<ActivityId>) -> ActivityId
    decreases ids.len(),
{
    if ids.len() <= 1 {
        ids[0]
    } else {
        let rest = least_id(ids.drop_last());
        if ids.last().0 < rest.0 {
            ids.last()
        } else {
            rest
        }
    }
}

/// What activity `act` shows in `entries`, in order.
pub open spec fn shown_in(act: ActivityId, entries: Seq<EntryModel>) -> Seq<Stray>
    decreases entries.len(),
{
    if entries.len() == 0 {
        Seq::empty()
    } else {
        shown_in(act, entries.drop_last()) + shown_on(act, entries.last())
    }
}

/// What activity `act` shows in entry `e`, in order.
pub open spec fn shown_on(act: ActivityId, e: EntryModel) -> Seq<Stray> {
    Seq::new(
        e.view.ids.len(),
        |i: int| Stray { act, output: e.output, id: e.view.ids[i] },
    )
}

/// What the activities in `list` show, in order.
pub open spec fn shown(list: Seq<ActivityModel>) -> Seq<Stray>
    decreases list.len(),
{
    if list.len() == 0 {
        Seq::empty()
    } else {
        shown(list.drop_last()) + shown_in(list.last().id, list.last().views)
    }
}

/// Whether an activity of `list` other than `gone` shows workspace `id` on output `out`.
pub open spec fn anchored(
    list: Seq<ActivityModel>,
    gone: Seq<ActivityId>,
    out: OutputId,
    id: WorkspaceId,
) -> bool {
    exists|i: int|
        0 <= i < list.len() && !gone.contains((#[trigger] list[i]).id) && list[i].view_of(out) is Some
            && list[i].view_of(out).unwrap().position_of(id) is Some
}

/// The predicate that picks what only the activities `gone` show.
pub open spec fn orphaned(list: Seq<ActivityModel>, gone: Seq<ActivityId>) -> spec_fn(Stray) -> bool {
    |s: Stray| gone.contains(s.act) && !anchored(list, gone, s.output, s.id)
}

/// The predicate that picks what is not among `gone`.
pub open spec fn staying(gone: Seq<ActivityId>) -> spec_fn(ActivityId) -> bool {
    |x: ActivityId| !gone.contains(x)
}

/// Workspace `w` in the activities that its declaration gives it, if it has one. A sticky
/// workspace is in all of them.
pub open spec fn reassigned(
    w: WorkspaceModel,
    acts: ActivitiesModel,
    decls: Seq<WorkspaceDeclModel>,
) -> WorkspaceModel {
    if w.sticky {
        WorkspaceModel { activities: acts.ids(), ..w }
    } else {
        match w.name {
            Some(name) => match crate::search::find(decls, declares(name)) {
                Some(i) => WorkspaceModel { activities: acts.declared_for(decls[i]), ..w },
                None => w,
            },
            None => w,
        }
    }
}

impl PoolModel {
    /// Every workspace in the activities that its declaration gives it.
    pub open spec fn reassign_all(self, acts: ActivitiesModel, decls: Seq<WorkspaceDeclModel>) -> PoolModel {
        PoolModel {
            items: Seq::new(self.items.len(), |i: int| reassigned(self.items[i], acts, decls)),
            ..self
        }
    }
}

impl ActivitiesModel {
    /// An activity called `name` declared: the one that is called so up to case, or a new one.
    pub open spec fn declare(self, name: Seq<char>) -> ActivitiesModel {
        match crate::search::find(self.list, clashing(name, None)) {
            Some(i) => ActivitiesModel {
                list: self.list.update(i, ActivityModel { declared: true, ..self.list[i] }),
                ..self
            },
            None => ActivitiesModel {
                list: self.list.push(
                    ActivityModel {
                        id: ActivityId(self.next as u64),
                        name,
                        declared: true,
                        last_active_seq: 0,
                        views: Seq::empty(),
                    },
                ),
                next: self.next + 1,
                ..self
            },
        }
    }

    /// The id of the activity called `name`, or the one that it would get.
    pub open spec fn id_declared(self, name: Seq<char>) -> ActivityId {
        match crate::search::find(self.list, clashing(name, None)) {
            Some(i) => self.list[i].id,
            None => ActivityId(self.next as u64),
        }
    }

    /// Activities called `names` declared.
    pub open spec fn declare_all(self, names: Seq<Seq<char>>) -> ActivitiesModel
        decreases names.len(),
    {
        if names.len() == 0 {
            self
        } else {
            self.declare_all(names.drop_last()).declare(names.last())
        }
    }

    /// Their ids.
    pub open spec fn ids_declared(self, names: Seq<Seq<char>>) -> Seq<ActivityId>
        decreases names.len(),
    {
        if names.len() == 0 {
            Seq::empty()
        } else {
            self.ids_declared(names.drop_last()).push(
                self.declare_all(names.drop_last()).id_declared(names.last()),
            )
        }
    }

    /// The activities `ids` brought to the front, in that order; the others follow as they were.
    pub open spec fn reorder(self, ids: Seq<ActivityId>) -> ActivitiesModel
        decreases ids.len(),
    {
        if ids.len() == 0 {
            self
        } else {
            let s = self.reorder(ids.drop_last());
            let at = ids.len() - 1;
            match s.pos(ids.last()) {
                Some(p) => if p >= at {
                    ActivitiesModel { list: s.list.remove(p).insert(at, s.list[p]), ..s }
                } else {
                    s
                },
                None => s,
            }
        }
    }
}

impl LayoutModel {
    /// The activities that leave when the configuration declares just `names`.
    pub open spec fn leavers(self, names: Seq<Seq<char>>) -> Seq<ActivityId> {
        activity_ids(self.acts.list.filter(obsolete(names)))
    }

    /// Why the activities `gone` cannot be removed.
    pub open spec fn removal_refusal(self, gone: Seq<ActivityId>) -> Option<Refusal> {
        match least(self.pool.items, stranded(gone)) {
            Some(i) => Some(
                Refusal::ExclusiveWorkspaceHasWindows {
                    activity_name: self.title(self.pool.items[i].activities[0]),
                    workspace_id: self.pool.items[i].id,
                },
            ),
            None => if gone.len() >= self.acts.list.len() {
                Some(Refusal::WouldEmptyPool { activity_name: self.title(least_id(gone)) })
            } else if gone.contains(self.acts.active) && self.switch_block() is Some {
                Some(
                    Refusal::HardBlockedCascade {
                        activity_name: self.title(self.acts.active),
                        block: self.switch_block().unwrap(),
                    },
                )
            } else {
                None
            },
        }
    }

    /// The name of activity `act`.
    pub open spec fn title(self, act: ActivityId) -> Seq<char> {
        match self.acts.get(act) {
            Some(a) => a.name,
            None => Seq::empty(),
        }
    }

    /// The activity that becomes active when the active one is among `gone`: the one that was
    /// active before if it stays, else the first one that does.
    pub open spec fn refuge(self, gone: Seq<ActivityId>) -> Option<ActivityId> {
        if self.acts.previous is Some && !gone.contains(self.acts.previous.unwrap()) {
            self.acts.previous
        } else {
            match crate::search::find(self.acts.ids(), staying(gone)) {
                Some(i) => Some(self.acts.ids()[i]),
                None => None,
            }
        }
    }

    /// An activity that stays made active.
    pub open spec fn take_refuge(self, gone: Seq<ActivityId>) -> LayoutModel {
        if gone.contains(self.acts.active) {
            match self.refuge(gone) {
                Some(a) => self.switch_activity(a),
                None => self,
            }
        } else {
            self
        }
    }

    /// Workspace `s.id` shown by the active activity on the output where `s.act` showed it, above
    /// the last workspace there. A workspace that is routed nowhere is routed to that output.
    pub open spec fn adopt(self, s: Stray) -> LayoutModel {
        match self.active_view(s.output) {
            Some(v) => if v.position_of(s.id) is Some || v.ids.len() == 0 {
                self
            } else {
                let w = self.pool.get(s.id);
                let pool = if w is Some && (w.unwrap().output_id is None || w.unwrap().output_id
                    == Some(OutputId(0))) {
                    self.pool.set_output(s.id, Some(s.output))
                } else {
                    self.pool
                };
                let v1 = v.insert(v.ids.len() - 1, s.id);
                let v2 = if v.ids.len() == 1 {
                    v1.set_active_at(0)
                } else {
                    v1
                };
                LayoutModel { pool, ..self }.with_view(self.acts.active, s.output, v2)
            },
            None => self,
        }
    }

    /// All of `work` adopted.
    pub open spec fn adopt_all(self, work: Seq<Stray>) -> LayoutModel
        decreases work.len(),
    {
        if work.len() == 0 {
            self
        } else {
            self.adopt_all(work.drop_last()).adopt(work.last())
        }
    }

    /// Activity `act` gone, with the workspaces that belong to it alone.
    pub open spec fn disband(self, act: ActivityId) -> LayoutModel {
        let s = self.destroy_all(ids_of(self.pool.items.filter(owned_by(act))));
        LayoutModel { pool: s.pool.leave_all(act), acts: s.acts.remove(act), ..s }
    }

    /// The workspaces that lose activity `act` and stay.
    pub open spec fn losing(self, act: ActivityId) -> Seq<WorkspaceId> {
        let s = self.destroy_all(ids_of(self.pool.items.filter(owned_by(act))));
        ids_of(s.pool.items.filter(in_activity(act)))
    }

    /// The activities `gone` gone, one after the other.
    pub open spec fn disband_all(self, gone: Seq<ActivityId>) -> LayoutModel
        decreases gone.len(),
    {
        if gone.len() == 0 {
            self
        } else {
            self.disband_all(gone.drop_last()).disband(gone.last())
        }
    }

    /// The workspaces that lose one of `gone` and stay.
    pub open spec fn losing_any(self, gone: Seq<ActivityId>) -> Seq<WorkspaceId>
        decreases gone.len(),
    {
        if gone.len() == 0 {
            Seq::empty()
        } else {
            self.losing_any(gone.drop_last()) + self.disband_all(gone.drop_last()).losing(
                gone.last(),
            )
        }
    }

    /// The activities `gone` removed. What only they showed, the active one shows.
    pub open spec fn remove_activities(self, gone: Seq<ActivityId>) -> LayoutModel {
        let s1 = self.take_refuge(gone);
        let s2 = s1.adopt_all(shown(s1.acts.list).filter(orphaned(s1.acts.list, gone)));
        s2.disband_all(gone).disarm_stale().ensure_all().reclaim_all(s2.losing_any(gone))
    }

    /// The activities called `names` declared and brought to the front, and every declared or
    /// sticky workspace in the activities it belongs to.
    pub open spec fn declare_activities(
        self,
        names: Seq<Seq<char>>,
        decls: Seq<WorkspaceDeclModel>,
    ) -> LayoutModel {
        let acts = self.acts.declare_all(names).reorder(self.acts.ids_declared(names));
        LayoutModel { acts, pool: self.pool.reassign_all(acts, decls), ..self }.ensure_all().reconcile()
    }
}

/// Adopting workspaces keeps the frame.
pub proof fn lemma_adopt_all_leads(s: LayoutModel, work: Seq<Stray>)
    ensures
        s.leads_to(s.adopt_all(work)),
    decreases work.len(),
{
    if work.len() > 0 {
        lemma_adopt_all_leads(s, work.drop_last());
        let t = s.adopt_all(work.drop_last());
        let w = work.last();
        if let Some(v) = t.active_view(w.output) {
            let v1 = v.insert(v.ids.len() - 1, w.id);
            let v2 = if v.ids.len() == 1 {
                v1.set_active_at(0)
            } else {
                v1
            };
            let t1 = LayoutModel { pool: t.pool.set_output(w.id, Some(w.output)), ..t };
            crate::reclaim::lemma_with_view_leads(t, t.acts.active, w.output, v2);
            crate::reclaim::lemma_with_view_leads(t1, t1.acts.active, w.output, v2);
        }
    }
}

/// Removing activities moves no counter back.
pub proof fn lemma_disband_all_before(s: LayoutModel, gone: Seq<ActivityId>)
    ensures
        s.before(s.disband_all(gone)),
    decreases gone.len(),
{
    if gone.len() > 0 {
        lemma_disband_all_before(s, gone.drop_last());
        let t = s.disband_all(gone.drop_last());
        crate::reclaim::lemma_destroy_all_leads(
            t,
            ids_of(t.pool.items.filter(owned_by(gone.last()))),
        );
    }
}

/// Declaring activities moves no counter back.
pub proof fn lemma_declare_all_counts(s: ActivitiesModel, names: Seq<Seq<char>>, k: int)
    requires
        0 <= k <= names.len(),
    ensures
        s.declare_all(names.take(k)).next <= s.declare_all(names).next,
        s.declare_all(names).seq == s.seq,
    decreases names.len(),
{
    if k < names.len() {
        lemma_declare_all_counts(s, names.drop_last(), k);
        assert(names.drop_last().take(k) =~= names.take(k));
    } else {
        assert(names.take(k) =~= names);
        if names.len() > 0 {
            lemma_declare_all_counts(s, names.drop_last(), names.len() - 1);
        }
    }
}

/// Reordering touches no counter.
pub proof fn lemma_reorder_counts(s: ActivitiesModel, ids: Seq<ActivityId>)
    ensures
        s.reorder(ids).next == s.next,
        s.reorder(ids).seq == s.seq,
    decreases ids.len(),
{
    if ids.len() > 0 {
        lemma_reorder_counts(s, ids.drop_last());
    }
}

/// The least of `ids`.
fn least_of(ids: &Vec<ActivityId>) -> (r: ActivityId)
    requires
        ids@.len() > 0,
    ensures
        r == least_id(ids@),
{
    let mut best = ids[0];
    let mut i: usize = 1;
    assert(ids@.take(1)[0] == ids@[0]);
    while i < ids.len()
        invariant
            1 <= i <= ids@.len(),
            best == least_id(ids@.take(i as int)),
        decreases ids@.len() - i,
    {
        assert(ids@.take(i + 1).drop_last() =~= ids@.take(i as int));
        if ids[i].0 < best.0 {
            best = ids[i];
        }
        i = i + 1;
    }
    assert(ids@.take(i as int) =~= ids@);
    best
}

impl WorkspacePool {
    /// The workspace with the least id among those with windows that belong to one of `gone`
    /// alone, and its activity.
    fn stranded(&self, gone: &Vec<ActivityId>) -> (r: Option<(WorkspaceId, ActivityId)>)
        ensures
            match least(self@.items, stranded(gone@)) {
                Some(i) => 0 <= i < self@.items.len() && r == Some(
                    (self@.items[i].id, self@.items[i].activities[0]),
                ),
                None => r is None,
            },
    {
        let ghost p = stranded(gone@);
        let ghost all = self@.items;
        let mut best: Option<usize> = None;
        let mut i: usize = 0;
        while i < self.items.len()
            invariant
                i <= self.items@.len(),
                all == self@.items,
                p == stranded(gone@),
                match best {
                    Some(b) => b < i && least(all.take(i as int), p) == Some(b as int)
                        && all[b as int].activities.len() == 1,
                    None => least(all.take(i as int), p) is None,
                },
            decreases self.items@.len() - i,
        {
            proof {
                assert(all.take(i + 1).drop_last() =~= all.take(i as int));
                assert(all.take(i + 1).last() == all[i as int]);
                assert(all[i as int] == self.items@[i as int]@);
            }
            if self.items[i].activities.len() == 1 && self.items[i].tiles.len() > 0 && lists(
                gone,
                self.items[i].activities[0],
            ) {
                let better = match best {
                    Some(b) => {
                        assert(all[b as int] == self.items@[b as int]@);
                        self.items[i].id.0 < self.items[b].id.0
                    },
                    None => true,
                };
                if better {
                    best = Some(i);
                }
            }
            i = i + 1;
        }
        assert(all.take(i as int) =~= all);
        match best {
            Some(b) => {
                assert(all[b as int] == self.items@[b as int]@);
                Some((self.items[b].id, self.items[b].activities[0]))
            },
            None => None,
        }
    }
}

impl Layout {
    /// The activities that leave when the configuration declares just `names`.
    fn leavers(&self, names: &Vec<String>) -> (r: Vec<ActivityId>)
        ensures
            r@ == self@.leavers(texts(names@)),
    {
        let ghost p = obsolete(texts(names@));
        let ghost all = self@.acts.list;
        let mut r: Vec<ActivityId> = Vec::new();
        let mut i: usize = 0;
        while i < self.activities.list.len()
            invariant
                i <= self.activities.list@.len(),
                all == self@.acts.list,
                p == obsolete(texts(names@)),
                r@ == activity_ids(all.take(i as int).filter(p)),
            decreases self.activities.list@.len() - i,
        {
            let ghost before = all.take(i as int).filter(p);
            proof {
                assert(all[i as int] == self.activities.list@[i as int]@);
                assert(all.take(i + 1).drop_last() =~= all.take(i as int));
                assert(all.take(i + 1).last() == all[i as int]);
                reveal(Seq::filter);
            }
            if self.activities.list[i].declared && !is_among(
                names,
                self.activities.list[i].name.as_str(),
            ) {
                r.push(self.activities.list[i].id);
                assert(r@ =~= activity_ids(before.push(all[i as int])));
            }
            i = i + 1;
        }
        assert(all.take(i as int) =~= all);
        r
    }

    /// The name of activity `act`.
    fn title(&self, act: ActivityId) -> (s: String)
        ensures
            s@ == self@.title(act),
    {
        match self.activities.get(act) {
            Some(a) => a.name.clone(),
            None => {
                let s = String::new();
                assert(s@ =~= Seq::empty());
                s
            },
        }
    }

    /// Why the activities `gone` cannot be removed.
    fn removal_refusal(&self, gone: &Vec<ActivityId>) -> (e: Option<ReloadActivityRemovalError>)
        requires
            gone@.len() > 0,
        ensures
            match e {
                Some(e) => self@.removal_refusal(gone@) == Some(e@),
                None => self@.removal_refusal(gone@) is None,
            },
    {
        if let Some((id, act)) = self.workspaces.stranded(gone) {
            return Some(
                ReloadActivityRemovalError::ExclusiveWorkspaceHasWindows {
                    activity_name: self.title(act),
                    workspace_id: id,
                },
            );
        }
        if gone.len() >= self.activities.list.len() {
            return Some(
                ReloadActivityRemovalError::WouldEmptyPool {
                    activity_name: self.title(least_of(gone)),
                },
            );
        }
        if lists(gone, self.activities.active) {
            if let Some(block) = self.is_activity_switch_hard_blocked() {
                return Some(
                    ReloadActivityRemovalError::HardBlockedCascade {
                        activity_name: self.title(self.activities.active),
                        block,
                    },
                );
            }
        }
        None
    }

    /// The activity that becomes active when the active one is among `gone`.
    #[verifier::loop_isolation(false)]
    fn refuge(&self, gone: &Vec<ActivityId>) -> (id: Option<ActivityId>)
        ensures
            id == self@.refuge(gone@),
    {
        if let Some(p) = self.activities.previous {
            if !lists(gone, p) {
                return Some(p);
            }
        }
        let ids = self.activities.ids();
        let ghost p = staying(gone@);
        let mut i: usize = 0;
        while i < ids.len()
            invariant
                i <= ids@.len(),
                p == staying(gone@),
                crate::search::find(ids@, p) == crate::search::find_from(ids@, p, i as int),
            decreases ids@.len() - i,
        {
            if !lists(gone, ids[i]) {
                return Some(ids[i]);
            }
            i = i + 1;
        }
        None
    }

    /// Whether an activity other than `gone` shows workspace `id` on output `out`.
    fn is_anchored(&self, gone: &Vec<ActivityId>, out: OutputId, id: WorkspaceId) -> (b: bool)
        ensures
            b == anchored(self@.acts.list, gone@, out, id),
    {
        let ghost all = self@.acts.list;
        let mut i: usize = 0;
        while i < self.activities.list.len()
            invariant
                i <= self.activities.list@.len(),
                all == self@.acts.list,
                forall|j: int|
                    0 <= j < i ==> gone@.contains((#[trigger] all[j]).id) || all[j].view_of(
                        out,
                    ) is None || all[j].view_of(out).unwrap().position_of(id) is None,
            decreases self.activities.list@.len() - i,
        {
            assert(all[i as int] == self.activities.list@[i as int]@);
            if !lists(gone, self.activities.list[i].id) {
                if let Some(v) = self.activities.list[i].view_on(out) {
                    if v.position_of(id).is_some() {
                        return true;
                    }
                }
            }
            i = i + 1;
        }
        false
    }

    /// What the activities show, in order.
    pub(crate) fn shown(&self) -> (r: Vec<Stray>)
        ensures
            r@ == shown(self@.acts.list),
    {
        let ghost all = self@.acts.list;
        let mut r: Vec<Stray> = Vec::new();
        let mut i: usize = 0;
        while i < self.activities.list.len()
            invariant
                i <= self.activities.list@.len(),
                all == self@.acts.list,
                r@ == shown(all.take(i as int)),
            decreases self.activities.list@.len() - i,
        {
            let ghost before = shown(all.take(i as int));
            let act = self.activities.list[i].id;
            let ghost entries = all[i as int].views;
            assert(all[i as int] == self.activities.list@[i as int]@);
            let mut j: usize = 0;
            assert(before + shown_in(act, entries.take(0)) =~= before);
            while j < self.activities.list[i].views.len()
                invariant
                    i < self.activities.list@.len(),
                    j <= entries.len(),
                    entries == all[i as int].views,
                    all[i as int] == self.activities.list@[i as int]@,
                    act == all[i as int].id,
                    all == self@.acts.list,
                    r@ == before + shown_in(act, entries.take(j as int)),
                decreases entries.len() - j,
            {
                let ghost sofar = before + shown_in(act, entries.take(j as int));
                let ghost e = entries[j as int];
                assert(e == self.activities.list@[i as int].views@[j as int]@);
                let out = self.activities.list[i].views[j].output;
                let n: usize = self.activities.list[i].views[j].view.len();
                let mut k: usize = 0;
                assert(sofar + shown_on(act, e).take(0) =~= sofar);
                while k < n
                    invariant
                        i < self.activities.list@.len(),
                        j < entries.len(),
                        k <= n,
                        n == e.view.ids.len(),
                        entries == all[i as int].views,
                        all[i as int] == self.activities.list@[i as int]@,
                        e == self.activities.list@[i as int].views@[j as int]@,
                        out == e.output,
                        r@ == sofar + shown_on(act, e).take(k as int),
                    decreases n - k,
                {
                    let id = self.activities.list[i].views[j].view.id_at(k);
                    r.push(Stray { act, output: out, id });
                    k = k + 1;
                    assert(r@ =~= sofar + shown_on(act, e).take(k as int));
                }
                proof {
                    assert(shown_on(act, e).take(k as int) =~= shown_on(act, e));
                    assert(entries.take(j + 1).drop_last() =~= entries.take(j as int));
                    assert(sofar + shown_on(act, e) =~= before + shown_in(
                        act,
                        entries.take(j + 1),
                    ));
                }
                j = j + 1;
            }
            proof {
                assert(entries.take(j as int) =~= entries);
                assert(all.take(i + 1).drop_last() =~= all.take(i as int));
                assert(all.take(i + 1).last() == all[i as int]);
            }
            i = i + 1;
        }
        assert(all.take(i as int) =~= all);
        r
    }

    /// What only the activities `gone` show, in order.
    fn orphans(&self, gone: &Vec<ActivityId>) -> (r: Vec<Stray>)
        ensures
            r@ == shown(self@.acts.list).filter(orphaned(self@.acts.list, gone@)),
    {
        let all = self.shown();
        let ghost p = orphaned(self@.acts.list, gone@);
        let mut r: Vec<Stray> = Vec::new();
        let mut i: usize = 0;
        while i < all.len()
            invariant
                i <= all@.len(),
                p == orphaned(self@.acts.list, gone@),
                r@ == all@.take(i as int).filter(p),
            decreases all@.len() - i,
        {
            proof {
                assert(all@.take(i + 1).drop_last() =~= all@.take(i as int));
                assert(all@.take(i + 1).last() == all@[i as int]);
                reveal(Seq::filter);
            }
            let s = all[i];
            if lists(gone, s.act) && !self.is_anchored(gone, s.output, s.id) {
                r.push(s);
            }
            i = i + 1;
        }
        assert(all@.take(i as int) =~= all@);
        r
    }

    /// Has the active activity show what another one showed.
    fn adopt(&mut self, s: Stray)
        ensures
            final(self)@ == old(self)@.adopt(s),
    {
        let act = self.activities.active;
        if let Some(mut v) = self.copy_view(act, s.output) {
            let n: usize = v.len();
            if v.position_of(s.id).is_some() || n == 0 {
                return;
            }
            let loose = match self.workspaces.get(s.id) {
                Some(w) => match w.output_id {
                    Some(o) => o.0 == 0,
                    None => true,
                },
                None => false,
            };
            if loose {
                self.workspaces.set_output(s.id, Some(s.output));
            }
            v.insert(n - 1, s.id);
            if n == 1 {
                v.set_active_at(0);
            }
            self.put_view(act, s.output, v);
        }
    }

    /// Removes activity `act` with the workspaces that belong to it alone, and returns those that
    /// lose it.
    fn disband(&mut self, act: ActivityId) -> (narrowed: Vec<WorkspaceId>)
        ensures
            final(self)@ == old(self)@.disband(act),
            narrowed@ == old(self)@.losing(act),
    {
        let (own, _windows, _names) = self.owned(act);
        self.destroy_workspaces_cross_activity(&own);
        let narrowed = self.workspaces.leave_all(act);
        self.activities.remove(act);
        narrowed
    }

    /// Removes the declared activities that are not among `names`, with the empty workspaces that
    /// belong to them alone. If one of them is in use nothing changes.
    pub(crate) fn do_reconcile_activities_on_reload_remove(&mut self, names: &Vec<String>) -> (r: Result<
        (),
        ReloadActivityRemovalError,
    >)
        requires
            old(self)@.leavers(texts(names@)).len() > 0 && old(self)@.removal_refusal(
                old(self)@.leavers(texts(names@)),
            ) is None ==> old(self)@.remove_activities(old(self)@.leavers(texts(names@))).fits(),
        ensures
            ({
                let gone = old(self)@.leavers(texts(names@));
                match r {
                    Ok(_) => if gone.len() == 0 {
                        final(self)@ == old(self)@
                    } else {
                        old(self)@.removal_refusal(gone) is None && final(self)@ == old(
                            self)@.remove_activities(gone)
                    },
                    Err(e) => gone.len() > 0 && old(self)@.removal_refusal(gone) == Some(e@)
                        && final(self)@ == old(self)@,
                }
            }),
    {
        let gone = self.leavers(names);
        if gone.len() == 0 {
            return Ok(());
        }
        if let Some(e) = self.removal_refusal(&gone) {
            return Err(e);
        }
        let ghost start = self@;
        let ghost s1 = start.take_refuge(gone@);
        let ghost work = shown(s1.acts.list).filter(orphaned(s1.acts.list, gone@));
        let ghost s2 = s1.adopt_all(work);
        let ghost s3 = s2.disband_all(gone@);
        proof {
            if let Some(a) = start.refuge(gone@) {
                crate::switching::lemma_switch_activity_before(start, a);
            }
            lemma_adopt_all_leads(s1, work);
            lemma_disband_all_before(s2, gone@);
            crate::materialize::lemma_ensure_all_leads(s3.disarm_stale());
            crate::reclaim::lemma_reclaim_all_leads(
                s3.disarm_stale().ensure_all(),
                s2.losing_any(gone@),
            );
        }
        if lists(&gone, self.activities.active) {
            if let Some(a) = self.refuge(&gone) {
                self.do_switch_activity(a);
            }
        }
        let orphans = self.orphans(&gone);
        let mut i: usize = 0;
        while i < orphans.len()
            invariant
                i <= orphans@.len(),
                self@ == s1.adopt_all(orphans@.take(i as int)),
            decreases orphans@.len() - i,
        {
            self.adopt(orphans[i]);
            i = i + 1;
            assert(orphans@.take(i as int).drop_last() =~= orphans@.take(i - 1));
        }
        assert(orphans@.take(i as int) =~= orphans@);
        let mut narrowed: Vec<WorkspaceId> = Vec::new();
        let mut k: usize = 0;
        while k < gone.len()
            invariant
                k <= gone@.len(),
                self@ == s2.disband_all(gone@.take(k as int)),
                narrowed@ == s2.losing_any(gone@.take(k as int)),
            decreases gone@.len() - k,
        {
            let mut more = self.disband(gone[k]);
            narrowed.append(&mut more);
            k = k + 1;
            assert(gone@.take(k as int).drop_last() =~= gone@.take(k - 1));
        }
        assert(gone@.take(k as int) =~= gone@);
        self.snap_stale_activity_switches();
        self.ensure_all_activity_views();
        self.reclaim_unpinned_empty_workspaces(&narrowed);
        Ok(())
    }
}

/// The predicate that picks the monitor that `out` designates.
pub open spec fn designated_by(out: OutputId) -> spec_fn(Monitor) -> bool {
    |m: Monitor| out.designates(m.output)
}

impl LayoutModel {
    /// The monitor on which the declared workspace `d` opens: the one it names, if it is connected,
    /// else the primary one; the focused one if it names none.
    pub open spec fn opening_monitor(self, d: WorkspaceDeclModel) -> int {
        match d.open_on_output {
            Some(out) => match crate::search::find(self.monitors, designated_by(out)) {
                Some(m) => m,
                None => self.primary,
            },
            None => self.focused,
        }
    }

    /// The declared workspace `d` opened, unless a workspace has its name.
    pub open spec fn ensure_named(self, d: WorkspaceDeclModel) -> LayoutModel {
        if self.named_workspace(d.name) is Some {
            self
        } else {
            let members = self.acts.declared_for(d);
            let id = self.pool.next_id();
            if self.monitors.len() == 0 {
                LayoutModel {
                    pool: self.pool.mint_declared(d, members, None),
                    parked: seq![id] + self.parked,
                    ..self
                }
            } else {
                let mon = self.opening_monitor(d);
                let output = self.monitors[mon].output;
                let s1 = LayoutModel {
                    pool: self.pool.mint_declared(d, members, Some(output.id)),
                    ..self
                };
                let s2 = if members.contains(self.acts.active) {
                    s1.attach(mon, id, 0, false)
                } else {
                    LayoutModel { pool: s1.pool.bind(id, output), ..s1 }
                };
                s2.enlist_all(
                    s2.acts.ids().filter(elsewhere(self.acts.active, members)),
                    output.id,
                    id,
                ).normalize()
            }
        }
    }
}

impl Activities {
    /// Declares an activity called `name` and returns its id.
    fn declare(&mut self, name: &String) -> (id: ActivityId)
        requires
            old(self)@.declare(name@).next <= u64::MAX,
        ensures
            final(self)@ == old(self)@.declare(name@),
            id == old(self)@.id_declared(name@),
    {
        let ghost start = self@;
        let ghost q = clashing(name@, None);
        let mut i: usize = 0;
        while i < self.list.len()
            invariant
                i <= self.list@.len(),
                start == self@,
                *self == *old(self),
                q == clashing(name@, None),
                start.declare(name@).next <= u64::MAX,
                crate::search::find(start.list, q) == crate::search::find_from(
                    start.list,
                    q,
                    i as int,
                ),
            decreases self.list@.len() - i,
        {
            assert(start.list[i as int] == self.list@[i as int]@);
            if eq_ignore_ascii_case(self.list[i].name.as_str(), name.as_str()) {
                self.list[i].declared = true;
                assert(self@.list =~= start.declare(name@).list);
                return self.list[i].id;
            }
            i = i + 1;
        }
        let id = ActivityId(self.next_id);
        let views: Vec<ViewEntry> = Vec::new();
        let a = Activity { id, name: name.clone(), declared: true, last_active_seq: 0, views };
        assert(a@.views =~= Seq::empty());
        self.list.push(a);
        self.next_id = self.next_id + 1;
        assert(self@.list =~= start.declare(name@).list);
        id
    }

    /// Brings the activities `ids` to the front, in that order.
    fn reorder(&mut self, ids: &Vec<ActivityId>)
        ensures
            final(self)@ == old(self)@.reorder(ids@),
    {
        let ghost start = self@;
        let mut i: usize = 0;
        while i < ids.len()
            invariant
                i <= ids@.len(),
                self@ == start.reorder(ids@.take(i as int)),
            decreases ids@.len() - i,
        {
            let ghost now = self@;
            assert(ids@.take(i + 1).drop_last() =~= ids@.take(i as int));
            if let Some(p) = self.position_of(ids[i]) {
                if p >= i {
                    let a = self.list.remove(p);
                    self.list.insert(i, a);
                    assert(self@.list =~= now.list.remove(p as int).insert(
                        i as int,
                        now.list[p as int],
                    ));
                }
            }
            i = i + 1;
        }
        assert(ids@.take(i as int) =~= ids@);
    }
}

impl WorkspacePool {
    /// Puts every workspace in the activities that its declaration gives it.
    fn reassign_all(&mut self, activities: &Activities, decls: &Vec<WorkspaceDecl>)
        ensures
            final(self)@ == old(self)@.reassign_all(activities@, decl_models(decls@)),
            final(self).next_id == old(self).next_id,
    {
        let ghost start = self@;
        let ghost models = decl_models(decls@);
        let mut i: usize = 0;
        while i < self.items.len()
            invariant
                i <= self.items@.len(),
                self.items@.len() == start.items.len(),
                self.next_id == old(self).next_id,
                start == old(self)@,
                models == decl_models(decls@),
                forall|j: int|
                    0 <= j < i ==> (#[trigger] self.items@[j])@ == reassigned(
                        start.items[j],
                        activities@,
                        models,
                    ),
                forall|j: int|
                    i <= j < self.items@.len() ==> (#[trigger] self.items@[j])@ == start.items[j],
            decreases self.items@.len() - i,
        {
            let given = given_activities(&self.items[i], activities, decls);
            let ghost before = self.items@[i as int]@;
            if let Some(acts) = given {
                let ghost members = acts@;
                self.items[i].activities = acts;
                assert(self.items@[i as int]@ =~= WorkspaceModel { activities: members, ..before });
            }
            i = i + 1;
        }
        assert(self@.items =~= start.reassign_all(activities@, models).items);
    }
}

/// The activities that its declaration gives workspace `w`, if it has one.
fn given_activities(w: &Workspace, activities: &Activities, decls: &Vec<WorkspaceDecl>) -> (r:
    Option<Vec<ActivityId>>)
    ensures
        match r {
            Some(acts) => reassigned(w@, activities@, decl_models(decls@)) == (WorkspaceModel {
                activities: acts@,
                ..w@
            }),
            None => reassigned(w@, activities@, decl_models(decls@)) == w@,
        },
{
    if w.sticky {
        return Some(activities.ids());
    }
    match &w.name {
        Some(name) => match declaration_of(decls, name.as_str()) {
            Some(i) => Some(resolve_workspace_activities_for(activities, &decls[i])),
            None => None,
        },
        None => None,
    }
}

impl Layout {
    /// Declares the activities called `names`, in that order before all others, and puts every
    /// declared or sticky workspace in the activities it belongs to. A name that an activity has
    /// up to case keeps that activity as it is.
    pub(crate) fn do_reconcile_activities_on_reload_add(
        &mut self,
        names: &Vec<String>,
        workspaces: &Vec<WorkspaceDecl>,
    )
        requires
            old(self)@.declare_activities(texts(names@), decl_models(workspaces@)).fits(),
        ensures
            final(self)@ == old(self)@.declare_activities(
                texts(names@),
                decl_models(workspaces@),
            ),
    {
        let ghost start = self@;
        let ghost all = texts(names@);
        let ghost decls = decl_models(workspaces@);
        let ghost acts = start.acts.declare_all(all).reorder(start.acts.ids_declared(all));
        let ghost s1 = LayoutModel { acts, pool: start.pool.reassign_all(acts, decls), ..start };
        proof {
            crate::materialize::lemma_ensure_all_leads(s1);
            crate::reconcile::lemma_reconcile_leads(s1.ensure_all());
            lemma_reorder_counts(start.acts.declare_all(all), start.acts.ids_declared(all));
        }
        let mut ids: Vec<ActivityId> = Vec::new();
        let mut i: usize = 0;
        while i < names.len()
            invariant
                i <= names@.len(),
                all == texts(names@),
                start.acts.declare_all(all).next <= u64::MAX,
                self@ == (LayoutModel { acts: start.acts.declare_all(all.take(i as int)), ..start }),
                ids@ == start.acts.ids_declared(all.take(i as int)),
            decreases names@.len() - i,
        {
            proof {
                lemma_declare_all_counts(start.acts, all, i + 1);
                assert(all.take(i + 1).drop_last() =~= all.take(i as int));
                assert(all.take(i + 1).last() == all[i as int]);
            }
            let id = self.activities.declare(&names[i]);
            ids.push(id);
            i = i + 1;
        }
        assert(all.take(i as int) =~= all);
        self.activities.reorder(&ids);
        self.workspaces.reassign_all(&self.activities, workspaces);
        self.ensure_all_activity_views();
        self.do_reconcile_views_with_membership();
    }

    /// The monitor on which the declared workspace `decl` opens.
    fn opening_monitor(&self, decl: &WorkspaceDecl) -> (m: usize)
        requires
            self@.primary < self@.monitors.len(),
            self@.focused < self@.monitors.len(),
        ensures
            m == self@.opening_monitor(decl@),
            m < self@.monitors.len(),
    {
        match decl.open_on_output {
            Some(out) => {
                let ghost q = designated_by(out);
                let mut i: usize = 0;
                while i < self.monitors.len()
                    invariant
                        i <= self.monitors@.len(),
                        q == designated_by(out),
                        decl.open_on_output == Some(out),
                        crate::search::find(self@.monitors, q) == crate::search::find_from(
                            self@.monitors,
                            q,
                            i as int,
                        ),
                    decreases self.monitors@.len() - i,
                {
                    if out.matches(&self.monitors[i].output) {
                        return i;
                    }
                    i = i + 1;
                }
                self.primary_idx
            },
            None => self.active_monitor_idx,
        }
    }

    /// Opens the declared workspace `decl`, unless a workspace has its name: at the top of the
    /// active view if it belongs to the active activity, and above the last workspace of the views
    /// of its other activities.
    pub(crate) fn do_ensure_named_workspace(&mut self, decl: &WorkspaceDecl)
        requires
            old(self)@.monitors.len() > 0 ==> old(self)@.primary < old(self)@.monitors.len() && old(
                self)@.focused < old(self)@.monitors.len(),
            old(self)@.ensure_named(decl@).fits(),
        ensures
            final(self)@ == old(self)@.ensure_named(decl@),
    {
        if self.find_workspace_by_name(decl.name.as_str()).is_some() {
            return;
        }
        let members = resolve_workspace_activities_for(&self.activities, decl);
        let ghost start = self@;
        let ghost acts = members@;
        if self.monitors.len() == 0 {
            let id = self.workspaces.mint_declared(decl, members, None);
            self.disconnected_workspace_ids.insert(0, id);
            assert(self@.parked =~= seq![id] + start.parked);
            return;
        }
        let mon: usize = self.opening_monitor(decl);
        let output = self.monitors[mon].output;
        let active = self.activities.active;
        let ids = self.activities.ids();
        let is_member = lists(&members, active);
        let others = besides(&ids, active, &members);
        let ghost s1 = LayoutModel {
            pool: start.pool.mint_declared(decl@, acts, Some(output.id)),
            ..start
        };
        let ghost s2 = if is_member {
            s1.attach(mon as int, start.pool.next_id(), 0, false)
        } else {
            LayoutModel { pool: s1.pool.bind(start.pool.next_id(), output), ..s1 }
        };
        proof {
            crate::arrange::lemma_attach_leads(s1, mon as int, start.pool.next_id(), 0, false);
            assert(s1.leads_to(s2));
            assert(s2.acts.ids() == start.acts.ids());
            crate::membership::lemma_enlist_all_leads(
                s2,
                others@,
                output.id,
                start.pool.next_id(),
            );
            crate::bookends::lemma_normalize_leads(
                s2.enlist_all(others@, output.id, start.pool.next_id()),
            );
        }
        let id = self.workspaces.mint_declared(decl, members, Some(output.id));
        if is_member {
            self.insert_workspace_onto_monitor(mon, id, 0, false);
        } else {
            self.workspaces.bind(id, &output);
        }
        let mut i: usize = 0;
        while i < others.len()
            invariant
                i <= others@.len(),
                self@ == s2.enlist_all(others@.take(i as int), output.id, id),
            decreases others@.len() - i,
        {
            self.enlist(others[i], output.id, id, false);
            i = i + 1;
            assert(others@.take(i as int).drop_last() =~= others@.take(i - 1));
        }
        assert(others@.take(i as int) =~= others@);
        let _minted = self.normalize_view_bookends();
    }
}

/// Those of `ids` other than `active` that are among `members`.
fn besides(ids: &Vec<ActivityId>, active: ActivityId, members: &Vec<ActivityId>) -> (r: Vec<
    ActivityId,
>)
    ensures
        r@ == ids@.filter(elsewhere(active, members@)),
{
    let ghost p = elsewhere(active, members@);
    let mut r: Vec<ActivityId> = Vec::new();
    let mut i: usize = 0;
    while i < ids.len()
        invariant
            i <= ids@.len(),
            p == elsewhere(active, members@),
            r@ == ids@.take(i as int).filter(p),
        decreases ids@.len() - i,
    {
        proof {
            assert(ids@.take(i + 1).drop_last() =~= ids@.take(i as int));
            assert(ids@.take(i + 1).last() == ids@[i as int]);
            reveal(Seq::filter);
        }
        if ids[i] != active && lists(members, ids[i]) {
            r.push(ids[i]);
        }
        i = i + 1;
    }
    assert(ids@.take(i as int) =~= ids@);
    r
}

} // verus!
