//! One activity's ordered strip of workspaces on one output.

use vstd::prelude::*;

use crate::ids::WorkspaceId;

verus! {

/// Mathematical model of a [`WorkspaceView`].
#[verifier::ext_equal]
pub struct ViewModel {
    /// Workspaces from top to bottom.
    pub ids: Seq<WorkspaceId>,
    /// The workspace that is shown.
    pub active: WorkspaceId,
    /// The workspace that was shown before the last user-visible switch.
    pub previous: Option<WorkspaceId>,
}

impl ViewModel {
    /// A usable view: non-empty, without repetitions, and both cursors on its own workspaces.
    pub open spec fn wf(self) -> bool {
        &&& self.ids.len() > 0
        &&& self.ids.no_duplicates()
        &&& self.ids.contains(self.active)
        &&& match self.previous {
            Some(p) => self.ids.contains(p),
            None => true,
        }
    }

    /// Position of `id`, if the view holds it.
    pub open spec fn position_of(self, id: WorkspaceId) -> Option<int> {
        crate::search::find(self.ids, crate::search::equal_to(id))
    }

    /// Position of the active workspace.
    pub open spec fn active_position(self) -> int {
        match self.position_of(self.active) {
            Some(i) => i,
            None => 0,
        }
    }

    /// A view over `ids` that shows the workspace at `active_idx`.
    pub open spec fn fresh(ids: Seq<WorkspaceId>, active_idx: int) -> ViewModel {
        ViewModel { ids, active: ids[active_idx], previous: None }
    }

    /// `id` put in at `pos`; the cursors stay on their workspaces.
    pub open spec fn insert(self, pos: int, id: WorkspaceId) -> ViewModel {
        ViewModel { ids: self.ids.insert(pos, id), ..self }
    }

    /// The entry at `pos` taken out. Removing the active workspace activates the one before it,
    /// or the new first one.
    pub open spec fn remove_at(self, pos: int) -> ViewModel {
        let gone = self.ids[pos];
        ViewModel {
            ids: self.ids.remove(pos),
            active: if gone == self.active && self.ids.len() > 1 {
                if pos > 0 {
                    self.ids[pos - 1]
                } else {
                    self.ids[1]
                }
            } else {
                self.active
            },
            previous: if self.previous == Some(gone) {
                None
            } else {
                self.previous
            },
        }
    }

    /// The active cursor moved without recording where it came from.
    pub open spec fn set_active_at(self, pos: int) -> ViewModel {
        ViewModel { active: self.ids[pos], ..self }
    }

    /// The active cursor moved, remembering where it came from.
    pub open spec fn activate(self, pos: int) -> ViewModel {
        if self.ids[pos] == self.active {
            self
        } else {
            ViewModel { active: self.ids[pos], previous: Some(self.active), ..self }
        }
    }

    /// The entries at `i` and `j` exchanged.
    pub open spec fn swap(self, i: int, j: int) -> ViewModel {
        ViewModel { ids: self.ids.update(i, self.ids[j]).update(j, self.ids[i]), ..self }
    }

    /// The entry at `from` moved to `to`.
    pub open spec fn move_within(self, from: int, to: int) -> ViewModel {
        ViewModel { ids: self.ids.remove(from).insert(to, self.ids[from]), ..self }
    }
}

/// The workspaces of one activity on one output, in order, with the active one.
#[derive(Debug)]
pub struct WorkspaceView {
    ids: Vec<WorkspaceId>,
    active: WorkspaceId,
    previous: Option<WorkspaceId>,
}

impl View for WorkspaceView {
    type V = ViewModel;

    closed spec fn view(&self) -> ViewModel {
        ViewModel { ids: self.ids@, active: self.active, previous: self.previous }
    }
}

impl WorkspaceView {
    /// A view over `ids` showing the workspace at `active_idx`.
    pub fn new(ids: Vec<WorkspaceId>, active_idx: usize) -> (v: WorkspaceView)
        requires
            active_idx < ids@.len(),
        ensures
            v@ == ViewModel::fresh(ids@, active_idx as int),
            ids@.no_duplicates() ==> v@.wf(),
    {
        let active = ids[active_idx];
        WorkspaceView { ids, active, previous: None }
    }

    /// A view with the given cursors.
    pub fn from_parts(
        ids: Vec<WorkspaceId>,
        active: WorkspaceId,
        previous: Option<WorkspaceId>,
    ) -> (v: WorkspaceView)
        ensures
            v@ == (ViewModel { ids: ids@, active, previous }),
    {
        WorkspaceView { ids, active, previous }
    }

    /// An equal view.
    pub fn duplicate(&self) -> (v: WorkspaceView)
        ensures
            v@ == self@,
    {
        let mut ids: Vec<WorkspaceId> = Vec::new();
        let mut i: usize = 0;
        while i < self.ids.len()
            invariant
                i <= self.ids@.len(),
                ids@ == self.ids@.take(i as int),
            decreases self.ids@.len() - i,
        {
            ids.push(self.ids[i]);
            i = i + 1;
        }
        assert(ids@ =~= self.ids@);
        WorkspaceView { ids, active: self.active, previous: self.previous }
    }

    /// Number of workspaces.
    pub fn len(&self) -> (n: usize)
        ensures
            n == self@.ids.len(),
    {
        self.ids.len()
    }

    /// The workspaces from top to bottom.
    pub fn ids(&self) -> (ids: &Vec<WorkspaceId>)
        ensures
            ids@ == self@.ids,
    {
        &self.ids
    }

    /// The workspace at `pos`.
    pub fn id_at(&self, pos: usize) -> (id: WorkspaceId)
        requires
            pos < self@.ids.len(),
        ensures
            id == self@.ids[pos as int],
    {
        self.ids[pos]
    }

    /// The active workspace.
    pub fn active(&self) -> (id: WorkspaceId)
        ensures
            id == self@.active,
    {
        self.active
    }

    /// The workspace that was active before the last recorded switch.
    pub fn previous(&self) -> (id: Option<WorkspaceId>)
        ensures
            id == self@.previous,
    {
        self.previous
    }

    /// Position of `id`, if the view holds it.
    pub fn position_of(&self, id: WorkspaceId) -> (pos: Option<usize>)
        ensures
            match pos {
                Some(p) => self@.position_of(id) == Some(p as int) && p < self@.ids.len()
                    && self@.ids[p as int] == id,
                None => self@.position_of(id) is None && !self@.ids.contains(id),
            },
    {
        let ghost p = crate::search::equal_to(id);
        let mut i: usize = 0;
        while i < self.ids.len()
            invariant
                i <= self.ids@.len(),
                p == crate::search::equal_to(id),
                crate::search::find(self.ids@, p) == crate::search::find_from(self.ids@, p, i as int),
                forall|j: int| 0 <= j < i ==> self.ids@[j] != id,
            decreases self.ids@.len() - i,
        {
            if self.ids[i] == id {
                return Some(i);
            }
            i = i + 1;
        }
        None
    }

    /// Whether the view holds `id`.
    pub fn contains(&self, id: WorkspaceId) -> (b: bool)
        ensures
            b == self@.ids.contains(id),
    {
        match self.position_of(id) {
            Some(p) => {
                assert(self@.ids[p as int] == id);
                true
            },
            None => false,
        }
    }

    /// Position of the active workspace.
    pub fn active_position(&self) -> (pos: usize)
        ensures
            pos as int == self@.active_position(),
            pos < usize::MAX,
            self@.wf() ==> pos < self@.ids.len() && self@.ids[pos as int] == self@.active,
    {
        let n: usize = self.ids.len();
        match self.position_of(self.active) {
            Some(p) => {
                assert(p < n);
                p
            },
            None => 0,
        }
    }

    /// Puts `id` in at `pos`.
    pub fn insert(&mut self, pos: usize, id: WorkspaceId)
        requires
            pos <= old(self)@.ids.len(),
        ensures
            final(self)@ == old(self)@.insert(pos as int, id),
            old(self)@.wf() && !old(self)@.ids.contains(id) ==> final(self)@.wf(),
    {
        self.ids.insert(pos, id);
        proof {
            if old(self)@.wf() && !old(self)@.ids.contains(id) {
                lemma_insert_wf(old(self)@, pos as int, id);
            }
        }
    }

    /// Takes the entry at `pos` out. The active cursor falls back to the entry before.
    pub fn remove_at(&mut self, pos: usize) -> (id: WorkspaceId)
        requires
            pos < old(self)@.ids.len(),
        ensures
            id == old(self)@.ids[pos as int],
            final(self)@ == old(self)@.remove_at(pos as int),
            old(self)@.wf() && old(self)@.ids.len() > 1 ==> final(self)@.wf(),
    {
        let id = self.ids[pos];
        if id == self.active && self.ids.len() > 1 {
            self.active = if pos > 0 {
                self.ids[pos - 1]
            } else {
                self.ids[1]
            };
        }
        let was_previous = match self.previous {
            Some(p) => p == id,
            None => false,
        };
        if was_previous {
            self.previous = None;
        }
        let gone = self.ids.remove(pos);
        proof {
            if old(self)@.wf() && old(self)@.ids.len() > 1 {
                lemma_remove_wf(old(self)@, pos as int);
            }
        }
        gone
    }

    /// Makes the entry at `pos` active without touching `previous`.
    pub fn set_active_at(&mut self, pos: usize)
        requires
            pos < old(self)@.ids.len(),
        ensures
            final(self)@ == old(self)@.set_active_at(pos as int),
            old(self)@.wf() ==> final(self)@.wf(),
    {
        self.active = self.ids[pos];
    }

    /// Makes the entry at `pos` active and remembers the one that was.
    pub fn activate(&mut self, pos: usize)
        requires
            pos < old(self)@.ids.len(),
        ensures
            final(self)@ == old(self)@.activate(pos as int),
            old(self)@.wf() ==> final(self)@.wf(),
    {
        let id = self.ids[pos];
        if id != self.active {
            self.previous = Some(self.active);
            self.active = id;
        }
    }

    /// Exchanges two entries.
    pub fn swap(&mut self, i: usize, j: usize)
        requires
            i < old(self)@.ids.len(),
            j < old(self)@.ids.len(),
        ensures
            final(self)@ == old(self)@.swap(i as int, j as int),
            old(self)@.wf() ==> final(self)@.wf(),
    {
        let a = self.ids[i];
        let b = self.ids[j];
        self.ids.set(i, b);
        self.ids.set(j, a);
        proof {
            if old(self)@.wf() {
                lemma_swap_wf(old(self)@, i as int, j as int);
            }
        }
    }

    /// Moves the entry at `from` to position `to`.
    pub fn move_within(&mut self, from: usize, to: usize)
        requires
            from < old(self)@.ids.len(),
            to < old(self)@.ids.len(),
        ensures
            final(self)@ == old(self)@.move_within(from as int, to as int),
            old(self)@.wf() ==> final(self)@.wf(),
    {
        let id = self.ids.remove(from);
        self.ids.insert(to, id);
        proof {
            if old(self)@.wf() {
                lemma_move_wf(old(self)@, from as int, to as int);
            }
        }
    }
}

/// Inserting a new workspace keeps a view usable.
pub proof fn lemma_insert_wf(v: ViewModel, pos: int, id: WorkspaceId)
    requires
        v.wf(),
        0 <= pos <= v.ids.len(),
        !v.ids.contains(id),
    ensures
        v.insert(pos, id).wf(),
        forall|x: WorkspaceId| #[trigger]
            v.insert(pos, id).ids.contains(x) <==> (x == id || v.ids.contains(x)),
{
    let w = v.insert(pos, id);
    assert forall|x: WorkspaceId| v.ids.contains(x) implies #[trigger] w.ids.contains(x) by {
        let i = choose|i: int| 0 <= i < v.ids.len() && v.ids[i] == x;
        if i < pos {
            assert(w.ids[i] == x);
        } else {
            assert(w.ids[i + 1] == x);
        }
    }
    assert(w.ids[pos] == id);
}

/// Taking an entry out of a view with several keeps it usable.
pub proof fn lemma_remove_wf(v: ViewModel, pos: int)
    requires
        v.wf(),
        0 <= pos < v.ids.len(),
        v.ids.len() > 1,
    ensures
        v.remove_at(pos).wf(),
        forall|x: WorkspaceId| #[trigger]
            v.remove_at(pos).ids.contains(x) <==> (x != v.ids[pos] && v.ids.contains(x)),
{
    let w = v.remove_at(pos);
    assert forall|x: WorkspaceId| x != v.ids[pos] && v.ids.contains(x) implies #[trigger]
        w.ids.contains(x) by {
        let i = choose|i: int| 0 <= i < v.ids.len() && v.ids[i] == x;
        if i < pos {
            assert(w.ids[i] == x);
        } else {
            assert(w.ids[i - 1] == x);
        }
    }
    if v.ids[pos] == v.active {
        if pos > 0 {
            assert(w.ids[pos - 1] == w.active);
        } else {
            assert(w.ids[0] == w.active);
        }
    }
}

/// Exchanging two entries keeps a view usable and its workspaces the same.
pub proof fn lemma_swap_wf(v: ViewModel, i: int, j: int)
    requires
        v.wf(),
        0 <= i < v.ids.len(),
        0 <= j < v.ids.len(),
    ensures
        v.swap(i, j).wf(),
        forall|x: WorkspaceId| #[trigger] v.swap(i, j).ids.contains(x) <==> v.ids.contains(x),
{
    let w = v.swap(i, j);
    assert forall|x: WorkspaceId| v.ids.contains(x) implies #[trigger] w.ids.contains(x) by {
        let k = choose|k: int| 0 <= k < v.ids.len() && v.ids[k] == x;
        let k2 = if k == i { j } else if k == j { i } else { k };
        assert(w.ids[k2] == x);
    }
}

/// Moving an entry keeps a view usable and its workspaces the same.
pub proof fn lemma_move_wf(v: ViewModel, from: int, to: int)
    requires
        v.wf(),
        0 <= from < v.ids.len(),
        0 <= to < v.ids.len(),
    ensures
        v.move_within(from, to).wf(),
        forall|x: WorkspaceId| #[trigger]
            v.move_within(from, to).ids.contains(x) <==> v.ids.contains(x),
{
    let w = v.move_within(from, to);
    let mid = v.ids.remove(from);
    assert forall|x: WorkspaceId| v.ids.contains(x) implies #[trigger] w.ids.contains(x) by {
        let k = choose|k: int| 0 <= k < v.ids.len() && v.ids[k] == x;
        if k == from {
            assert(w.ids[to] == x);
        } else {
            let m = if k < from { k } else { k - 1 };
            assert(mid[m] == x);
            if m < to {
                assert(w.ids[m] == x);
            } else {
                assert(w.ids[m + 1] == x);
            }
        }
    }
}

} // verus!
