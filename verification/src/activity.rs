//! Activities and the views they hold.

use vstd::prelude::*;

use crate::ids::{ActivityId, OutputId, WorkspaceId};
use crate::view::{ViewModel, WorkspaceView};

verus! {

/// Mathematical model of a [`ViewEntry`].
#[verifier::ext_equal]
pub struct EntryModel {
    pub output: OutputId,
    pub view: ViewModel,
}

/// An activity's view of one output.
#[derive(Debug)]
pub struct ViewEntry {
    /// The output.
    pub output: OutputId,
    /// The activity's strip of workspaces there.
    pub view: WorkspaceView,
}

impl View for ViewEntry {
    type V = EntryModel;

    open spec fn view(&self) -> EntryModel {
        EntryModel { output: self.output, view: self.view@ }
    }
}

/// The models of a sequence of view entries.
pub open spec fn entry_models(s: Seq<ViewEntry>) -> Seq<EntryModel> {
    Seq::new(s.len(), |i: int| s[i]@)
}

/// The predicate that picks the entry for output `out`.
pub open spec fn keyed(out: OutputId) -> spec_fn(EntryModel) -> bool {
    |e: EntryModel| e.output == out
}

/// The predicate that picks an entry whose view holds workspace `id`.
pub open spec fn holding(id: WorkspaceId) -> spec_fn(EntryModel) -> bool {
    |e: EntryModel| e.view.position_of(id) is Some
}

/// `entries` without workspace `id`: it leaves every view that holds it, and a view that held
/// nothing else goes with it.
pub open spec fn without(entries: Seq<EntryModel>, id: WorkspaceId) -> Seq<EntryModel>
    decreases entries.len(),
{
    if entries.len() == 0 {
        entries
    } else {
        let rest = without(entries.drop_last(), id);
        let e = entries.last();
        match e.view.position_of(id) {
            None => rest.push(e),
            Some(p) => if e.view.ids.len() == 1 {
                rest
            } else {
                rest.push(EntryModel { view: e.view.remove_at(p), ..e })
            },
        }
    }
}

/// Mathematical model of an [`Activity`].
#[verifier::ext_equal]
pub struct ActivityModel {
    pub id: ActivityId,
    pub name: Seq<char>,
    pub declared: bool,
    pub last_active_seq: int,
    pub views: Seq<EntryModel>,
}

impl ActivityModel {
    /// Position of the entry for output `out`.
    pub open spec fn view_pos(self, out: OutputId) -> Option<int> {
        crate::search::find(self.views, keyed(out))
    }

    /// The view of output `out`.
    pub open spec fn view_of(self, out: OutputId) -> Option<ViewModel> {
        match self.view_pos(out) {
            Some(i) => Some(self.views[i].view),
            None => None,
        }
    }

    /// The view of output `out` replaced by `v`.
    pub open spec fn set_view(self, out: OutputId, v: ViewModel) -> ActivityModel {
        match self.view_pos(out) {
            Some(i) => ActivityModel {
                views: self.views.update(i, EntryModel { output: self.views[i].output, view: v }),
                ..self
            },
            None => self,
        }
    }

    /// A view of output `out` added.
    pub open spec fn add_view(self, out: OutputId, v: ViewModel) -> ActivityModel {
        ActivityModel { views: self.views.push(EntryModel { output: out, view: v }), ..self }
    }

    /// The view of output `out` dropped.
    pub open spec fn drop_view(self, out: OutputId) -> ActivityModel {
        match self.view_pos(out) {
            Some(i) => ActivityModel { views: self.views.remove(i), ..self },
            None => self,
        }
    }

    /// Workspace `id` gone from every view.
    pub open spec fn drop_workspace(self, id: WorkspaceId) -> ActivityModel {
        ActivityModel { views: without(self.views, id), ..self }
    }

    /// The output whose view holds workspace `id`.
    pub open spec fn output_of(self, id: WorkspaceId) -> Option<OutputId> {
        match crate::search::find(self.views, holding(id)) {
            Some(i) => Some(self.views[i].output),
            None => None,
        }
    }
}

/// An activity: a named desktop with its own view of every output.
#[derive(Debug)]
pub struct Activity {
    /// Its identity.
    pub id: ActivityId,
    /// Its name, unique up to case.
    pub name: String,
    /// Whether the configuration declares it.
    pub declared: bool,
    /// When it was last made active; zero if never.
    pub last_active_seq: u64,
    /// Its view of each output.
    pub views: Vec<ViewEntry>,
}

impl View for Activity {
    type V = ActivityModel;

    open spec fn view(&self) -> ActivityModel {
        ActivityModel {
            id: self.id,
            name: self.name@,
            declared: self.declared,
            last_active_seq: self.last_active_seq as int,
            views: entry_models(self.views@),
        }
    }
}

impl Activity {
    /// Position of the entry for output `out`.
    pub fn view_pos(&self, out: OutputId) -> (pos: Option<usize>)
        ensures
            match pos {
                Some(p) => self@.view_pos(out) == Some(p as int) && p < self.views@.len()
                    && self.views@[p as int].output == out,
                None => self@.view_pos(out) is None,
            },
    {
        let ghost p = keyed(out);
        let mut i: usize = 0;
        while i < self.views.len()
            invariant
                i <= self.views@.len(),
                p == keyed(out),
                crate::search::find(self@.views, p) == crate::search::find_from(
                    self@.views,
                    p,
                    i as int,
                ),
            decreases self.views@.len() - i,
        {
            assert(self@.views[i as int].output == self.views@[i as int].output);
            if self.views[i].output == out {
                return Some(i);
            }
            i = i + 1;
        }
        None
    }

    /// The view of output `out`.
    pub fn view_on(&self, out: OutputId) -> (v: Option<&WorkspaceView>)
        ensures
            match v {
                Some(v) => self@.view_of(out) == Some(v@),
                None => self@.view_of(out) is None,
            },
    {
        match self.view_pos(out) {
            Some(p) => Some(&self.views[p].view),
            None => None,
        }
    }

    /// Replaces the view of output `out`.
    pub fn set_view(&mut self, out: OutputId, v: WorkspaceView)
        ensures
            final(self)@ == old(self)@.set_view(out, v@),
    {
        let ghost model = v@;
        if let Some(p) = self.view_pos(out) {
            self.views[p].view = v;
            assert(self@.views =~= old(self)@.set_view(out, model).views);
        }
    }

    /// Adds a view of output `out`.
    pub fn add_view(&mut self, out: OutputId, v: WorkspaceView)
        ensures
            final(self)@ == old(self)@.add_view(out, v@),
    {
        let ghost model = v@;
        self.views.push(ViewEntry { output: out, view: v });
        assert(self@.views =~= old(self)@.add_view(out, model).views);
    }

    /// Drops the view of output `out` and returns it.
    pub fn drop_view(&mut self, out: OutputId) -> (v: Option<WorkspaceView>)
        ensures
            final(self)@ == old(self)@.drop_view(out),
            match v {
                Some(v) => old(self)@.view_of(out) == Some(v@),
                None => old(self)@.view_of(out) is None,
            },
    {
        match self.view_pos(out) {
            Some(p) => {
                let e = self.views.remove(p);
                assert(self@.views =~= old(self)@.drop_view(out).views);
                Some(e.view)
            },
            None => None,
        }
    }

    /// Takes workspace `id` out of every view, dropping views that held nothing else.
    pub fn drop_workspace(&mut self, id: WorkspaceId)
        ensures
            final(self)@ == old(self)@.drop_workspace(id),
    {
        let mut kept: Vec<ViewEntry> = Vec::new();
        let mut i: usize = 0;
        while i < self.views.len()
            invariant
                i <= self.views@.len(),
                *self == *old(self),
                entry_models(kept@) == without(self@.views.take(i as int), id),
            decreases self.views@.len() - i,
        {
            let ghost before = self@.views.take(i as int);
            let ghost after = self@.views.take(i + 1);
            let ghost kept0 = kept@;
            assert(after.drop_last() =~= before);
            assert(after.last() == self.views@[i as int]@);
            let out = self.views[i].output;
            match self.views[i].view.position_of(id) {
                None => {
                    let v = self.views[i].view.duplicate();
                    kept.push(ViewEntry { output: out, view: v });
                    assert(entry_models(kept@) =~= entry_models(kept0).push(after.last()));
                },
                Some(p) => {
                    if self.views[i].view.len() != 1 {
                        let mut v = self.views[i].view.duplicate();
                        let _gone = v.remove_at(p);
                        kept.push(ViewEntry { output: out, view: v });
                        assert(entry_models(kept@) =~= entry_models(kept0).push(
                            EntryModel {
                                view: after.last().view.remove_at(p as int),
                                ..after.last()
                            },
                        ));
                    }
                },
            }
            i = i + 1;
        }
        assert(self@.views.take(i as int) =~= self@.views);
        self.views = kept;
    }

    /// Position of the entry whose view holds workspace `id`.
    pub fn entry_holding(&self, id: WorkspaceId) -> (pos: Option<usize>)
        ensures
            match pos {
                Some(p) => crate::search::find(self@.views, holding(id)) == Some(p as int) && p
                    < self.views@.len() && self@.views[p as int] == self.views@[p as int]@,
                None => crate::search::find(self@.views, holding(id)) is None,
            },
    {
        let ghost p = holding(id);
        let mut i: usize = 0;
        while i < self.views.len()
            invariant
                i <= self.views@.len(),
                p == holding(id),
                crate::search::find(self@.views, p) == crate::search::find_from(
                    self@.views,
                    p,
                    i as int,
                ),
            decreases self.views@.len() - i,
        {
            assert(self@.views[i as int] == self.views@[i as int]@);
            if self.views[i].view.position_of(id).is_some() {
                return Some(i);
            }
            i = i + 1;
        }
        None
    }

    /// The output whose view holds workspace `id`.
    pub fn output_of(&self, id: WorkspaceId) -> (out: Option<OutputId>)
        ensures
            out == self@.output_of(id),
    {
        match self.entry_holding(id) {
            Some(p) => Some(self.views[p].output),
            None => None,
        }
    }
}

/// Mathematical model of [`Activities`].
#[verifier::ext_equal]
pub struct ActivitiesModel {
    pub list: Seq<ActivityModel>,
    pub active: ActivityId,
    pub previous: Option<ActivityId>,
    pub next: int,
    pub seq: int,
}

/// The predicate that picks activity `id`.
pub open spec fn named(id: ActivityId) -> spec_fn(ActivityModel) -> bool {
    |a: ActivityModel| a.id == id
}

/// Every activity without workspace `id`.
pub open spec fn all_without(list: Seq<ActivityModel>, id: WorkspaceId) -> Seq<ActivityModel> {
    Seq::new(list.len(), |i: int| list[i].drop_workspace(id))
}

impl ActivitiesModel {
    /// Position of activity `id`.
    pub open spec fn pos(self, id: ActivityId) -> Option<int> {
        crate::search::find(self.list, named(id))
    }

    /// Whether activity `id` is live.
    pub open spec fn has(self, id: ActivityId) -> bool {
        self.pos(id) is Some
    }

    /// Activity `id`.
    pub open spec fn get(self, id: ActivityId) -> Option<ActivityModel> {
        match self.pos(id) {
            Some(i) => Some(self.list[i]),
            None => None,
        }
    }

    /// The ids, in order.
    pub open spec fn ids(self) -> Seq<ActivityId> {
        Seq::new(self.list.len(), |i: int| self.list[i].id)
    }

    /// Activity `id` replaced by `a`.
    pub open spec fn put(self, id: ActivityId, a: ActivityModel) -> ActivitiesModel {
        match self.pos(id) {
            Some(i) => ActivitiesModel { list: self.list.update(i, a), ..self },
            None => self,
        }
    }

    /// Activity `act`'s view of output `out`.
    pub open spec fn view_of(self, act: ActivityId, out: OutputId) -> Option<ViewModel> {
        match self.get(act) {
            Some(a) => a.view_of(out),
            None => None,
        }
    }

    /// Activity `act`'s view of output `out` replaced by `v`.
    pub open spec fn set_view(self, act: ActivityId, out: OutputId, v: ViewModel) -> ActivitiesModel {
        match self.get(act) {
            Some(a) => self.put(act, a.set_view(out, v)),
            None => self,
        }
    }

    /// A view of output `out` added to activity `act`.
    pub open spec fn add_view(self, act: ActivityId, out: OutputId, v: ViewModel) -> ActivitiesModel {
        match self.get(act) {
            Some(a) => self.put(act, a.add_view(out, v)),
            None => self,
        }
    }

    /// Activity `act`'s view of output `out` dropped.
    pub open spec fn drop_view(self, act: ActivityId, out: OutputId) -> ActivitiesModel {
        match self.get(act) {
            Some(a) => self.put(act, a.drop_view(out)),
            None => self,
        }
    }

    /// Workspace `id` gone from every view of every activity.
    pub open spec fn drop_workspace(self, id: WorkspaceId) -> ActivitiesModel {
        ActivitiesModel { list: all_without(self.list, id), ..self }
    }

    /// `target` made active, remembering the one that was.
    pub open spec fn set_active(self, target: ActivityId) -> ActivitiesModel {
        let s = ActivitiesModel {
            active: target,
            previous: Some(self.active),
            seq: self.seq + 1,
            ..self
        };
        match self.get(target) {
            Some(a) => s.put(target, ActivityModel { last_active_seq: self.seq + 1, ..a }),
            None => s,
        }
    }

    /// Activity `id` removed.
    pub open spec fn remove(self, id: ActivityId) -> ActivitiesModel {
        let s = ActivitiesModel {
            previous: if self.previous == Some(id) {
                None
            } else {
                self.previous
            },
            ..self
        };
        match self.pos(id) {
            Some(i) => ActivitiesModel { list: self.list.remove(i), ..s },
            None => s,
        }
    }
}

/// The models of a sequence of activities.
pub open spec fn activity_models(s: Seq<Activity>) -> Seq<ActivityModel> {
    Seq::new(s.len(), |i: int| s[i]@)
}

/// The activities in display order, with the active one.
#[derive(Debug)]
pub struct Activities {
    /// The activities.
    pub list: Vec<Activity>,
    /// The active one.
    pub active: ActivityId,
    /// The one that was active before.
    pub previous: Option<ActivityId>,
    /// The id the next new activity gets.
    pub next_id: u64,
    /// How many times an activity was made active.
    pub seq: u64,
}

impl View for Activities {
    type V = ActivitiesModel;

    open spec fn view(&self) -> ActivitiesModel {
        ActivitiesModel {
            list: activity_models(self.list@),
            active: self.active,
            previous: self.previous,
            next: self.next_id as int,
            seq: self.seq as int,
        }
    }
}

impl Activities {
    /// Position of activity `id`.
    pub fn position_of(&self, id: ActivityId) -> (pos: Option<usize>)
        ensures
            match pos {
                Some(p) => self@.pos(id) == Some(p as int) && p < self.list@.len()
                    && self.list@[p as int].id == id,
                None => self@.pos(id) is None,
            },
    {
        let ghost p = named(id);
        let mut i: usize = 0;
        while i < self.list.len()
            invariant
                i <= self.list@.len(),
                p == named(id),
                crate::search::find(self@.list, p) == crate::search::find_from(
                    self@.list,
                    p,
                    i as int,
                ),
            decreases self.list@.len() - i,
        {
            assert(self@.list[i as int].id == self.list@[i as int].id);
            if self.list[i].id == id {
                return Some(i);
            }
            i = i + 1;
        }
        None
    }

    /// Activity `id`.
    pub fn get(&self, id: ActivityId) -> (a: Option<&Activity>)
        ensures
            match a {
                Some(a) => self@.get(id) == Some(a@) && a.id == id,
                None => self@.get(id) is None,
            },
    {
        match self.position_of(id) {
            Some(p) => Some(&self.list[p]),
            None => None,
        }
    }

    /// Whether activity `id` is live.
    pub fn contains(&self, id: ActivityId) -> (b: bool)
        ensures
            b == self@.has(id),
    {
        self.position_of(id).is_some()
    }

    /// Activity `act`'s view of output `out`.
    pub fn view_on(&self, act: ActivityId, out: OutputId) -> (v: Option<&WorkspaceView>)
        ensures
            match v {
                Some(v) => self@.view_of(act, out) == Some(v@),
                None => self@.view_of(act, out) is None,
            },
    {
        match self.get(act) {
            Some(a) => a.view_on(out),
            None => None,
        }
    }

    /// Replaces activity `act`'s view of output `out`.
    pub fn set_view(&mut self, act: ActivityId, out: OutputId, v: WorkspaceView)
        ensures
            final(self)@ == old(self)@.set_view(act, out, v@),
    {
        let ghost model = v@;
        if let Some(p) = self.position_of(act) {
            self.list[p].set_view(out, v);
            assert(self@.list =~= old(self)@.set_view(act, out, model).list);
        }
    }

    /// Adds a view of output `out` to activity `act`.
    pub fn add_view(&mut self, act: ActivityId, out: OutputId, v: WorkspaceView)
        ensures
            final(self)@ == old(self)@.add_view(act, out, v@),
    {
        let ghost model = v@;
        if let Some(p) = self.position_of(act) {
            self.list[p].add_view(out, v);
            assert(self@.list =~= old(self)@.add_view(act, out, model).list);
        }
    }

    /// Drops activity `act`'s view of output `out` and returns it.
    pub fn drop_view(&mut self, act: ActivityId, out: OutputId) -> (v: Option<WorkspaceView>)
        ensures
            final(self)@ == old(self)@.drop_view(act, out),
            match v {
                Some(v) => old(self)@.view_of(act, out) == Some(v@),
                None => old(self)@.view_of(act, out) is None,
            },
    {
        match self.position_of(act) {
            Some(p) => {
                let v = self.list[p].drop_view(out);
                assert(self@.list =~= old(self)@.drop_view(act, out).list);
                v
            },
            None => None,
        }
    }

    /// Takes workspace `id` out of every view of every activity.
    pub fn drop_workspace(&mut self, id: WorkspaceId)
        ensures
            final(self)@ == old(self)@.drop_workspace(id),
    {
        let mut i: usize = 0;
        while i < self.list.len()
            invariant
                i <= self.list@.len(),
                self.list@.len() == old(self).list@.len(),
                self.active == old(self).active,
                self.previous == old(self).previous,
                self.next_id == old(self).next_id,
                self.seq == old(self).seq,
                forall|j: int|
                    0 <= j < i ==> (#[trigger] self.list@[j])@ == old(self).list@[j]@.drop_workspace(
                        id,
                    ),
                forall|j: int| i <= j < self.list@.len() ==> self.list@[j] == old(self).list@[j],
            decreases self.list@.len() - i,
        {
            self.list[i].drop_workspace(id);
            i = i + 1;
        }
        assert(self@.list =~= old(self)@.drop_workspace(id).list);
    }

    /// The ids, in order.
    pub fn ids(&self) -> (ids: Vec<ActivityId>)
        ensures
            ids@ == self@.ids(),
    {
        let mut ids: Vec<ActivityId> = Vec::new();
        let mut i: usize = 0;
        while i < self.list.len()
            invariant
                i <= self.list@.len(),
                ids@ == self@.ids().take(i as int),
            decreases self.list@.len() - i,
        {
            ids.push(self.list[i].id);
            i = i + 1;
        }
        assert(ids@ =~= self@.ids());
        ids
    }

    /// Makes `target` active, remembering the one that was.
    pub fn set_active(&mut self, target: ActivityId)
        requires
            old(self).seq < u64::MAX,
        ensures
            final(self)@ == old(self)@.set_active(target),
    {
        self.previous = Some(self.active);
        self.active = target;
        self.seq = self.seq + 1;
        if let Some(p) = self.position_of(target) {
            self.list[p].last_active_seq = self.seq;
            assert(old(self)@.pos(target) == Some(p as int));
            assert(self@.list =~= old(self)@.set_active(target).list);
        }
    }

    /// Removes activity `id`.
    pub fn remove(&mut self, id: ActivityId)
        ensures
            final(self)@ == old(self)@.remove(id),
    {
        let was_previous = match self.previous {
            Some(p) => p == id,
            None => false,
        };
        if was_previous {
            self.previous = None;
        }
        if let Some(p) = self.position_of(id) {
            let _gone = self.list.remove(p);
            assert(self@.list =~= old(self)@.remove(id).list);
        }
    }
}

} // verus!
