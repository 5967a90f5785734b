//! The pool that owns every workspace.

use vstd::prelude::*;

use crate::ids::{ActivityId, OutputId, WindowId, WorkspaceId};
use crate::workspace::{Output, Tile, Workspace, WorkspaceModel};

verus! {

/// Mathematical model of a [`WorkspacePool`].
#[verifier::ext_equal]
pub struct PoolModel {
    /// Workspaces in the order of their ids.
    pub items: Seq<WorkspaceModel>,
    /// The id the next new workspace gets.
    pub next: int,
}

/// The predicate that picks the workspace `id`.
pub open spec fn has_id(id: WorkspaceId) -> spec_fn(WorkspaceModel) -> bool {
    |w: WorkspaceModel| w.id == id
}

impl PoolModel {
    /// Ids ascend and are all spent.
    pub open spec fn wf(self) -> bool {
        &&& forall|i: int, j: int|
            0 <= i < j < self.items.len() ==> (#[trigger] self.items[i]).id.0 < (
            #[trigger] self.items[j]).id.0
        &&& forall|i: int| 0 <= i < self.items.len() ==> (#[trigger] self.items[i]).id.0 < self.next
    }

    /// Position of workspace `id`.
    pub open spec fn pos(self, id: WorkspaceId) -> Option<int> {
        crate::search::find(self.items, has_id(id))
    }

    /// Whether workspace `id` is in the pool.
    pub open spec fn has(self, id: WorkspaceId) -> bool {
        self.pos(id) is Some
    }

    /// Workspace `id`.
    pub open spec fn get(self, id: WorkspaceId) -> Option<WorkspaceModel> {
        match self.pos(id) {
            Some(i) => Some(self.items[i]),
            None => None,
        }
    }

    /// Whether workspace `id` is in the pool with windows or a name.
    pub open spec fn busy(self, id: WorkspaceId) -> bool {
        match self.get(id) {
            Some(w) => w.busy(),
            None => false,
        }
    }

    /// Whether workspace `id` is in the pool and belongs to exactly one activity.
    pub open spec fn exclusive(self, id: WorkspaceId) -> bool {
        match self.get(id) {
            Some(w) => w.exclusive(),
            None => false,
        }
    }

    /// Whether workspace `id` is in the pool and belongs to several activities.
    pub open spec fn shared(self, id: WorkspaceId) -> bool {
        match self.get(id) {
            Some(w) => w.activities.len() > 1,
            None => false,
        }
    }

    /// Whether workspace `id` is in the pool and belongs to activity `act`.
    pub open spec fn member(self, id: WorkspaceId, act: ActivityId) -> bool {
        match self.get(id) {
            Some(w) => w.activities.contains(act),
            None => false,
        }
    }

    /// Workspace `id` replaced by `w`.
    pub open spec fn put(self, id: WorkspaceId, w: WorkspaceModel) -> PoolModel {
        match self.pos(id) {
            Some(i) => PoolModel { items: self.items.update(i, w), ..self },
            None => self,
        }
    }

    /// Workspace `id` taken out.
    pub open spec fn remove(self, id: WorkspaceId) -> PoolModel {
        match self.pos(id) {
            Some(i) => PoolModel { items: self.items.remove(i), ..self },
            None => self,
        }
    }

    /// The id the next new workspace gets.
    pub open spec fn next_id(self) -> WorkspaceId {
        WorkspaceId(self.next as u64)
    }

    /// A new empty workspace for activity `act` added, on the output designated `output`.
    pub open spec fn mint(self, output: OutputId, act: ActivityId) -> PoolModel {
        PoolModel {
            items: self.items.push(WorkspaceModel::fresh(self.next_id(), output, act)),
            next: self.next + 1,
        }
    }

    /// Workspace `id` bound to `output`.
    pub open spec fn bind(self, id: WorkspaceId, output: Output) -> PoolModel {
        match self.get(id) {
            Some(w) => self.put(id, w.bind(output)),
            None => self,
        }
    }

    /// Workspace `id` unbound.
    pub open spec fn unbind(self, id: WorkspaceId) -> PoolModel {
        match self.get(id) {
            Some(w) => self.put(id, w.unbind()),
            None => self,
        }
    }

    /// Every workspace in `ids` bound to `output`.
    pub open spec fn bind_all(self, ids: Seq<WorkspaceId>, output: Output) -> PoolModel
        decreases ids.len(),
    {
        if ids.len() == 0 {
            self
        } else {
            self.bind_all(ids.drop_last(), output).bind(ids.last(), output)
        }
    }

    /// Every workspace in `ids` unbound.
    pub open spec fn unbind_all(self, ids: Seq<WorkspaceId>) -> PoolModel
        decreases ids.len(),
    {
        if ids.len() == 0 {
            self
        } else {
            self.unbind_all(ids.drop_last()).unbind(ids.last())
        }
    }

    /// `tile` added to workspace `id`.
    pub open spec fn add_tile(self, id: WorkspaceId, tile: Tile, activate: bool) -> PoolModel {
        match self.get(id) {
            Some(w) => self.put(id, w.add_tile(tile, activate)),
            None => self,
        }
    }

    /// Window `w` taken out of workspace `id`.
    pub open spec fn remove_window(self, id: WorkspaceId, w: WindowId) -> PoolModel {
        match self.get(id) {
            Some(ws) => self.put(id, ws.remove_window(w)),
            None => self,
        }
    }

    /// Workspace `id` renamed.
    pub open spec fn set_name(self, id: WorkspaceId, name: Option<Seq<char>>) -> PoolModel {
        match self.get(id) {
            Some(w) => self.put(id, WorkspaceModel { name, ..w }),
            None => self,
        }
    }

    /// Workspace `id` given the activities `acts`.
    pub open spec fn set_activities(self, id: WorkspaceId, acts: Seq<ActivityId>) -> PoolModel {
        match self.get(id) {
            Some(w) => self.put(id, WorkspaceModel { activities: acts, ..w }),
            None => self,
        }
    }

    /// Workspace `id` given the routing hint `output`.
    pub open spec fn set_output(self, id: WorkspaceId, output: Option<OutputId>) -> PoolModel {
        match self.get(id) {
            Some(w) => self.put(id, WorkspaceModel { output_id: output, ..w }),
            None => self,
        }
    }
}

/// The models of a sequence of workspaces.
pub open spec fn models(items: Seq<Workspace>) -> Seq<WorkspaceModel> {
    Seq::new(items.len(), |i: int| items[i]@)
}

/// The pool that owns every workspace, in the order of their ids.
#[derive(Debug)]
pub struct WorkspacePool {
    /// The workspaces.
    pub items: Vec<Workspace>,
    /// The id the next new workspace gets.
    pub next_id: u64,
}

impl View for WorkspacePool {
    type V = PoolModel;

    open spec fn view(&self) -> PoolModel {
        PoolModel { items: models(self.items@), next: self.next_id as int }
    }
}

impl WorkspacePool {
    /// An empty pool.
    pub fn new() -> (p: WorkspacePool)
        ensures
            p@ == (PoolModel { items: Seq::empty(), next: 1 }),
            p@.wf(),
    {
        let p = WorkspacePool { items: Vec::new(), next_id: 1 };
        assert(p@.items =~= Seq::empty());
        p
    }

    /// Number of workspaces.
    pub fn len(&self) -> (n: usize)
        ensures
            n == self@.items.len(),
    {
        self.items.len()
    }

    /// Position of workspace `id`.
    pub fn position(&self, id: WorkspaceId) -> (pos: Option<usize>)
        ensures
            match pos {
                Some(p) => self@.pos(id) == Some(p as int) && p < self.items@.len()
                    && self.items@[p as int].id == id,
                None => self@.pos(id) is None,
            },
    {
        let ghost p = has_id(id);
        let mut i: usize = 0;
        while i < self.items.len()
            invariant
                i <= self.items@.len(),
                p == has_id(id),
                crate::search::find(self@.items, p) == crate::search::find_from(
                    self@.items,
                    p,
                    i as int,
                ),
            decreases self.items@.len() - i,
        {
            assert(self@.items[i as int].id == self.items@[i as int].id);
            if self.items[i].id == id {
                return Some(i);
            }
            i = i + 1;
        }
        None
    }

    /// Workspace `id`.
    pub fn get(&self, id: WorkspaceId) -> (w: Option<&Workspace>)
        ensures
            match w {
                Some(w) => self@.get(id) == Some(w@) && w.id == id,
                None => self@.get(id) is None,
            },
    {
        match self.position(id) {
            Some(p) => Some(&self.items[p]),
            None => None,
        }
    }

    /// Whether workspace `id` is in the pool.
    pub fn contains(&self, id: WorkspaceId) -> (b: bool)
        ensures
            b == self@.has(id),
    {
        self.position(id).is_some()
    }

    /// Whether workspace `id` is in the pool with windows or a name.
    pub fn is_busy(&self, id: WorkspaceId) -> (b: bool)
        ensures
            b == self@.busy(id),
    {
        match self.get(id) {
            Some(w) => w.has_windows_or_name(),
            None => false,
        }
    }

    /// Whether workspace `id` may be destroyed once it is empty: it is in the pool and no second
    /// activity holds it.
    pub fn workspace_is_safe_to_reclaim(&self, id: WorkspaceId) -> (b: bool)
        ensures
            b == self@.exclusive(id),
    {
        match self.get(id) {
            Some(w) => w.activities.len() == 1,
            None => false,
        }
    }

    /// Whether workspace `id` is in the pool and belongs to several activities.
    pub fn is_shared(&self, id: WorkspaceId) -> (b: bool)
        ensures
            b == self@.shared(id),
    {
        match self.get(id) {
            Some(w) => w.activities.len() > 1,
            None => false,
        }
    }

    /// Whether workspace `id` is in the pool and belongs to activity `act`.
    pub fn is_member(&self, id: WorkspaceId, act: ActivityId) -> (b: bool)
        ensures
            b == self@.member(id, act),
    {
        match self.get(id) {
            Some(w) => w.belongs_to(act),
            None => false,
        }
    }

    /// Takes workspace `id` out.
    pub fn remove(&mut self, id: WorkspaceId)
        ensures
            final(self)@ == old(self)@.remove(id),
    {
        if let Some(p) = self.position(id) {
            let _gone = self.items.remove(p);
            assert(self@.items =~= old(self)@.items.remove(p as int));
        }
    }

    /// Adds a new empty workspace and returns its id.
    pub fn mint(&mut self, output: OutputId, act: ActivityId) -> (id: WorkspaceId)
        requires
            old(self).next_id < u64::MAX,
        ensures
            id == old(self)@.next_id(),
            final(self)@ == old(self)@.mint(output, act),
            final(self).next_id == old(self).next_id + 1,
    {
        let id = WorkspaceId(self.next_id);
        self.next_id = self.next_id + 1;
        self.items.push(Workspace::new(id, output, act));
        assert(self@.items =~= old(self)@.mint(output, act).items);
        id
    }

    /// Binds workspace `id` to `output`.
    pub fn bind(&mut self, id: WorkspaceId, output: &Output)
        ensures
            final(self)@ == old(self)@.bind(id, *output),
            final(self).next_id == old(self).next_id,
    {
        if let Some(p) = self.position(id) {
            self.items[p].bind_output(output);
            assert(self@.items =~= old(self)@.bind(id, *output).items);
        }
    }

    /// Unbinds workspace `id`.
    pub fn unbind(&mut self, id: WorkspaceId)
        ensures
            final(self)@ == old(self)@.unbind(id),
            final(self).next_id == old(self).next_id,
    {
        if let Some(p) = self.position(id) {
            self.items[p].unbind_output();
            assert(self@.items =~= old(self)@.unbind(id).items);
        }
    }

    /// Binds every workspace in `ids` to `output`.
    pub fn bind_all(&mut self, ids: &Vec<WorkspaceId>, output: &Output)
        ensures
            final(self)@ == old(self)@.bind_all(ids@, *output),
            final(self).next_id == old(self).next_id,
    {
        let mut i: usize = 0;
        while i < ids.len()
            invariant
                i <= ids@.len(),
                self@ == old(self)@.bind_all(ids@.take(i as int), *output),
                self.next_id == old(self).next_id,
            decreases ids@.len() - i,
        {
            self.bind(ids[i], output);
            i = i + 1;
            assert(ids@.take(i as int).drop_last() =~= ids@.take(i - 1));
        }
        assert(ids@.take(i as int) =~= ids@);
    }

    /// Unbinds every workspace in `ids`.
    pub fn unbind_all(&mut self, ids: &Vec<WorkspaceId>)
        ensures
            final(self)@ == old(self)@.unbind_all(ids@),
            final(self).next_id == old(self).next_id,
    {
        let mut i: usize = 0;
        while i < ids.len()
            invariant
                i <= ids@.len(),
                self@ == old(self)@.unbind_all(ids@.take(i as int)),
                self.next_id == old(self).next_id,
            decreases ids@.len() - i,
        {
            self.unbind(ids[i]);
            i = i + 1;
            assert(ids@.take(i as int).drop_last() =~= ids@.take(i - 1));
        }
        assert(ids@.take(i as int) =~= ids@);
    }

    /// Adds a tile to workspace `id`.
    pub fn add_tile(&mut self, id: WorkspaceId, tile: Tile, activate: bool)
        ensures
            final(self)@ == old(self)@.add_tile(id, tile, activate),
            final(self).next_id == old(self).next_id,
    {
        if let Some(p) = self.position(id) {
            self.items[p].add_tile(tile, activate);
            assert(self@.items =~= old(self)@.add_tile(id, tile, activate).items);
        }
    }

    /// Takes window `w` out of workspace `id`.
    pub fn remove_window(&mut self, id: WorkspaceId, w: WindowId) -> (tile: Option<Tile>)
        ensures
            final(self)@ == old(self)@.remove_window(id, w),
            final(self).next_id == old(self).next_id,
            tile == match old(self)@.get(id) {
                Some(ws) => match ws.window_pos(w) {
                    Some(p) => Some(ws.tiles[p]),
                    None => None,
                },
                None => None,
            },
    {
        if let Some(p) = self.position(id) {
            if let Some(t) = self.items[p].window_pos(w) {
                let tile = self.items[p].remove_tile_at(t);
                assert(self@.items =~= old(self)@.remove_window(id, w).items);
                return Some(tile);
            }
            assert(self@.items =~= old(self)@.remove_window(id, w).items);
        }
        None
    }

    /// Renames workspace `id`.
    pub fn set_name(&mut self, id: WorkspaceId, name: Option<String>)
        ensures
            final(self)@ == old(self)@.set_name(id, crate::workspace::name_model(name)),
            final(self).next_id == old(self).next_id,
    {
        let ghost model = crate::workspace::name_model(name);
        if let Some(p) = self.position(id) {
            self.items[p].name = name;
            assert(self@.items =~= old(self)@.set_name(id, model).items);
        }
    }

    /// Gives workspace `id` the activities `acts`.
    pub fn set_activities(&mut self, id: WorkspaceId, acts: Vec<ActivityId>)
        ensures
            final(self)@ == old(self)@.set_activities(id, acts@),
            final(self).next_id == old(self).next_id,
    {
        let ghost model = acts@;
        if let Some(p) = self.position(id) {
            self.items[p].activities = acts;
            assert(self@.items =~= old(self)@.set_activities(id, model).items);
        }
    }

    /// Gives workspace `id` the routing hint `output`.
    pub fn set_output(&mut self, id: WorkspaceId, output: Option<OutputId>)
        ensures
            final(self)@ == old(self)@.set_output(id, output),
            final(self).next_id == old(self).next_id,
    {
        if let Some(p) = self.position(id) {
            self.items[p].output_id = output;
            assert(self@.items =~= old(self)@.set_output(id, output).items);
        }
    }
}

} // verus!
