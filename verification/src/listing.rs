//! Which windows and workspaces there are, and where.

use vstd::prelude::*;

use crate::ids::{ActivityId, OutputId, WindowId, WorkspaceId};
use crate::layout::{InteractiveMoveState, Layout, LayoutModel};
use crate::materialize::{ids_of, routed, tagged};
use crate::pool::PoolModel;
use crate::view::WorkspaceView;
use crate::workspace::{Output, Tile, Workspace, WorkspaceModel};

verus! {

/// A window and where it is.
#[derive(Clone, Copy, Debug, PartialEq, Eq, Structural)]
pub struct Located {
    /// The window.
    pub window: WindowId,
    /// The output it is on, if that is connected.
    pub output: Option<Output>,
    /// The workspace it is on, unless it is being dragged.
    pub workspace: Option<WorkspaceId>,
}

/// The windows on `tiles`, all of them on workspace `id` and on `output`.
pub open spec fn located(tiles: Seq<Tile>, output: Option<Output>, id: WorkspaceId) -> Seq<Located> {
    Seq::new(
        tiles.len(),
        |i: int| Located { window: tiles[i].window.id, output, workspace: Some(id) },
    )
}

/// Whether a window of workspace `w` asks for attention.
pub open spec fn is_urgent(w: WorkspaceModel) -> bool {
    exists|i: int| 0 <= i < w.tiles.len() && (#[trigger] w.tiles[i]).window.urgent
}

impl PoolModel {
    /// The windows on the workspaces `ids`, all of them on `output`, in order.
    pub open spec fn located_on(self, ids: Seq<WorkspaceId>, output: Option<Output>) -> Seq<Located>
        decreases ids.len(),
    {
        if ids.len() == 0 {
            Seq::empty()
        } else {
            self.located_on(ids.drop_last(), output) + match self.get(ids.last()) {
                Some(w) => located(w.tiles, output, ids.last()),
                None => Seq::empty(),
            }
        }
    }
}

impl LayoutModel {
    /// The window that is being dragged, if there is one.
    pub open spec fn located_dragged(self) -> Seq<Located> {
        match self.moving {
            Some(InteractiveMoveState::Moving(d)) => seq![
                Located {
                    window: d.tile.window.id,
                    output: Some(d.output),
                    workspace: None,
                },
            ],
            _ => Seq::empty(),
        }
    }

    /// The windows that the active activity has on the first `n` monitors, in order.
    pub open spec fn located_shown(self, n: int) -> Seq<Located>
        decreases n,
    {
        if n <= 0 {
            Seq::empty()
        } else {
            let m = self.monitors[n - 1];
            self.located_shown(n - 1) + match self.active_view(m.output.id) {
                Some(v) => self.pool.located_on(v.ids, Some(m.output)),
                None => Seq::empty(),
            }
        }
    }

    /// The output that workspace `w` is routed to, if it is connected.
    pub open spec fn output_of_workspace(self, w: WorkspaceModel) -> Option<Output> {
        match w.output_id {
            Some(out) => match self.monitor_pos(out) {
                Some(m) => Some(self.monitors[m].output),
                None => None,
            },
            None => None,
        }
    }

    /// The windows on the first `n` workspaces of the pool, in order.
    pub open spec fn located_pooled(self, n: int) -> Seq<Located>
        decreases n,
    {
        if n <= 0 {
            Seq::empty()
        } else {
            let w = self.pool.items[n - 1];
            self.located_pooled(n - 1) + located(w.tiles, self.output_of_workspace(w), w.id)
        }
    }

    /// The windows that the active activity has on `output`, the dragged one first.
    pub open spec fn windows_for_output(self, output: Output) -> Seq<WindowId> {
        let dragged = match self.moving {
            Some(InteractiveMoveState::Moving(d)) => if d.output == output {
                seq![d.tile.window.id]
            } else {
                Seq::empty()
            },
            _ => Seq::empty(),
        };
        dragged + match self.active_view(output.id) {
            Some(v) => self.pool.windows_on(v.ids),
            None => Seq::empty(),
        }
    }
}

impl Workspace {
    /// Lists the windows here, all of them on `output`.
    fn locate(&self, output: Option<Output>, r: &mut Vec<Located>)
        ensures
            final(r)@ == old(r)@ + located(self@.tiles, output, self@.id),
    {
        let ghost first = r@;
        let mut i: usize = 0;
        assert(first + located(self@.tiles.take(0), output, self@.id) =~= first);
        while i < self.tiles.len()
            invariant
                i <= self.tiles@.len(),
                self.tiles@ == self@.tiles,
                r@ == first + located(self@.tiles.take(i as int), output, self@.id),
            decreases self.tiles@.len() - i,
        {
            r.push(
                Located {
                    window: self.tiles[i].window.id,
                    output,
                    workspace: Some(self.id),
                },
            );
            i = i + 1;
            assert(r@ =~= first + located(self@.tiles.take(i as int), output, self@.id));
        }
        assert(self@.tiles.take(i as int) =~= self@.tiles);
    }

    /// Whether a window here asks for attention.
    fn is_urgent(&self) -> (b: bool)
        ensures
            b == is_urgent(self@),
    {
        let mut i: usize = 0;
        while i < self.tiles.len()
            invariant
                i <= self.tiles@.len(),
                self.tiles@ == self@.tiles,
                forall|j: int| 0 <= j < i ==> !(#[trigger] self@.tiles[j]).window.urgent,
            decreases self.tiles@.len() - i,
        {
            if self.tiles[i].window.urgent {
                assert(self@.tiles[i as int].window.urgent);
                return true;
            }
            i = i + 1;
        }
        false
    }
}

impl Layout {
    /// Lists the windows on the workspaces `ids`, all of them on `output`.
    fn locate_all(&self, ids: &Vec<WorkspaceId>, output: Option<Output>, r: &mut Vec<Located>)
        ensures
            final(r)@ == old(r)@ + self@.pool.located_on(ids@, output),
    {
        let ghost first = r@;
        let mut i: usize = 0;
        assert(first + self@.pool.located_on(ids@.take(0), output) =~= first);
        while i < ids.len()
            invariant
                i <= ids@.len(),
                r@ == first + self@.pool.located_on(ids@.take(i as int), output),
            decreases ids@.len() - i,
        {
            assert(ids@.take(i + 1).drop_last() =~= ids@.take(i as int));
            proof {
                crate::coherence::lemma_get(self@.pool, ids@[i as int]);
            }
            match self.workspaces.get(ids[i]) {
                Some(w) => {
                    w.locate(output, r);
                },
                None => {},
            }
            i = i + 1;
            assert(r@ =~= first + self@.pool.located_on(ids@.take(i as int), output));
        }
        assert(ids@.take(i as int) =~= ids@);
    }

    /// The windows of the active activity and where they are: the dragged one, those on each
    /// monitor, and those that wait for an output.
    pub fn with_windows(&self) -> (r: Vec<Located>)
        ensures
            r@ == self@.located_dragged() + self@.located_shown(self@.monitors.len() as int)
                + self@.pool.located_on(self@.parked, None),
    {
        let mut r: Vec<Located> = Vec::new();
        if let Some(InteractiveMoveState::Moving(d)) = self.interactive_move {
            r.push(
                Located { window: d.tile.window.id, output: Some(d.output), workspace: None },
            );
        }
        assert(r@ =~= self@.located_dragged());
        let ghost first = r@;
        let mut i: usize = 0;
        assert(first + self@.located_shown(0) =~= first);
        while i < self.monitors.len()
            invariant
                i <= self.monitors@.len(),
                r@ == first + self@.located_shown(i as int),
            decreases self.monitors@.len() - i,
        {
            let output = self.monitors[i].output;
            match self.activities.view_on(self.activities.active, output.id) {
                Some(v) => {
                    self.locate_all(v.ids(), Some(output), &mut r);
                },
                None => {},
            }
            i = i + 1;
            assert(r@ =~= first + self@.located_shown(i as int));
        }
        self.locate_all(&self.disconnected_workspace_ids, None, &mut r);
        r
    }

    /// The windows of all activities and where they are: the dragged one, then those in the pool.
    pub fn with_windows_all(&self) -> (r: Vec<Located>)
        ensures
            r@ == self@.located_dragged() + self@.located_pooled(self@.pool.items.len() as int),
    {
        let mut r: Vec<Located> = Vec::new();
        if let Some(InteractiveMoveState::Moving(d)) = self.interactive_move {
            r.push(
                Located { window: d.tile.window.id, output: Some(d.output), workspace: None },
            );
        }
        assert(r@ =~= self@.located_dragged());
        let ghost first = r@;
        let mut i: usize = 0;
        assert(first + self@.located_pooled(0) =~= first);
        while i < self.workspaces.items.len()
            invariant
                i <= self.workspaces.items@.len(),
                r@ == first + self@.located_pooled(i as int),
            decreases self.workspaces.items@.len() - i,
        {
            let w = &self.workspaces.items[i];
            assert(self@.pool.items[i as int] == w@);
            let output = match w.output_id {
                Some(out) => match self.monitor_idx(out) {
                    Some(m) => Some(self.monitors[m].output),
                    None => None,
                },
                None => None,
            };
            w.locate(output, &mut r);
            i = i + 1;
            assert(r@ =~= first + self@.located_pooled(i as int));
        }
        r
    }

    /// The windows that the active activity has on `output`, the dragged one first.
    pub fn windows_for_output(&self, output: &Output) -> (r: Vec<WindowId>)
        requires
            exists|m: int| 0 <= m < self@.monitors.len() && (#[trigger] self@.monitors[m]).output
                == *output,
        ensures
            r@ == self@.windows_for_output(*output),
    {
        let mut r: Vec<WindowId> = Vec::new();
        if let Some(InteractiveMoveState::Moving(d)) = self.interactive_move {
            if d.output == *output {
                r.push(d.tile.window.id);
            }
        }
        let ghost first = r@;
        if let Some(v) = self.activities.view_on(self.activities.active, output.id) {
            let ids = v.ids();
            let mut i: usize = 0;
            assert(first + self@.pool.windows_on(ids@.take(0)) =~= first);
            while i < ids.len()
                invariant
                    i <= ids@.len(),
                    r@ == first + self@.pool.windows_on(ids@.take(i as int)),
                decreases ids@.len() - i,
            {
                assert(ids@.take(i + 1).drop_last() =~= ids@.take(i as int));
                match self.workspaces.get(ids[i]) {
                    Some(w) => {
                        w.list_windows(&mut r);
                    },
                    None => {},
                }
                i = i + 1;
                assert(r@ =~= first + self@.pool.windows_on(ids@.take(i as int)));
            }
            assert(ids@.take(i as int) =~= ids@);
        }
        assert(r@ =~= self@.windows_for_output(*output));
        r
    }

    /// Every workspace there is, with the output it is routed to.
    pub fn workspaces_all(&self) -> (r: Vec<(Option<OutputId>, WorkspaceId)>)
        ensures
            r@ == Seq::new(
                self@.pool.items.len(),
                |i: int| (self@.pool.items[i].output_id, self@.pool.items[i].id),
            ),
    {
        let mut r: Vec<(Option<OutputId>, WorkspaceId)> = Vec::new();
        let mut i: usize = 0;
        while i < self.workspaces.items.len()
            invariant
                i <= self.workspaces.items@.len(),
                r@ == Seq::new(
                    i as nat,
                    |i: int| (self@.pool.items[i].output_id, self@.pool.items[i].id),
                ),
            decreases self.workspaces.items@.len() - i,
        {
            let w = &self.workspaces.items[i];
            assert(self@.pool.items[i as int] == w@);
            r.push((w.output_id, w.id));
            i = i + 1;
            assert(r@ =~= Seq::new(
                i as nat,
                |i: int| (self@.pool.items[i].output_id, self@.pool.items[i].id),
            ));
        }
        r
    }

    /// The workspaces of activity `act` that are routed to output `out`, oldest first.
    pub fn workspaces_with_activity(&self, act: ActivityId, out: OutputId) -> (r: Vec<WorkspaceId>)
        ensures
            r@ == tagged(self@.pool, act, out),
    {
        let ghost items = self@.pool.items;
        let ghost f = routed(act, out);
        let mut r: Vec<WorkspaceId> = Vec::new();
        let mut i: usize = 0;
        assert(ids_of(items.take(0).filter(f)) =~= Seq::<WorkspaceId>::empty()) by {
            reveal(Seq::filter);
        }
        while i < self.workspaces.items.len()
            invariant
                i <= self.workspaces.items@.len(),
                items == self@.pool.items,
                f == routed(act, out),
                r@ == ids_of(items.take(i as int).filter(f)),
            decreases self.workspaces.items@.len() - i,
        {
            let w = &self.workspaces.items[i];
            proof {
                reveal(Seq::filter);
                assert(items.take(i + 1).drop_last() =~= items.take(i as int));
                assert(items.take(i + 1).last() == items[i as int]);
                assert(items[i as int] == w@);
            }
            let here = match w.output_id {
                Some(o) => o == out,
                None => false,
            };
            if here && w.belongs_to(act) {
                r.push(w.id);
            }
            i = i + 1;
            assert(r@ =~= ids_of(items.take(i as int).filter(f)));
        }
        assert(items.take(i as int) =~= items);
        r
    }

    /// How many workspaces there are, how many of them the active activity shows, and how many
    /// wait for an output.
    pub fn latency_debug_counts(&self) -> (r: (usize, usize, usize))
        requires
            self@.strip(self@.monitors.len() as int).len() <= usize::MAX,
        ensures
            r.0 == self@.pool.items.len(),
            r.1 == self@.strip(self@.monitors.len() as int).len(),
            r.2 == self@.parked.len(),
    {
        let mut shown: usize = 0;
        let mut i: usize = 0;
        let ghost n = self@.monitors.len() as int;
        while i < self.monitors.len()
            invariant
                i <= self.monitors@.len(),
                n == self@.monitors.len(),
                shown == self@.strip(i as int).len(),
                self@.strip(n).len() <= usize::MAX,
            decreases self.monitors@.len() - i,
        {
            proof {
                lemma_strip_grows(self@, i + 1, n);
            }
            match self.activities.view_on(self.activities.active, self.monitors[i].output.id) {
                Some(v) => {
                    shown = shown + v.len();
                },
                None => {},
            }
            i = i + 1;
        }
        (self.workspaces.len(), shown, self.disconnected_workspace_ids.len())
    }

    /// Whether a window of activity `act` asks for attention.
    pub fn activity_is_urgent(&self, act: ActivityId) -> (b: bool)
        ensures
            b == exists|i: int|
                0 <= i < self@.pool.items.len() && (#[trigger] self@.pool.items[i]).activities.contains(
                    act,
                ) && is_urgent(self@.pool.items[i]),
    {
        let mut i: usize = 0;
        while i < self.workspaces.items.len()
            invariant
                i <= self.workspaces.items@.len(),
                forall|j: int|
                    0 <= j < i ==> !((#[trigger] self@.pool.items[j]).activities.contains(act)
                        && is_urgent(self@.pool.items[j])),
            decreases self.workspaces.items@.len() - i,
        {
            let w = &self.workspaces.items[i];
            assert(self@.pool.items[i as int] == w@);
            if w.belongs_to(act) && w.is_urgent() {
                return true;
            }
            i = i + 1;
        }
        false
    }

    /// What the active activity shows on monitor `mon_idx`, which slides in while activities are
    /// being switched.
    pub fn ctx_for(&self, mon_idx: usize) -> (v: Option<&WorkspaceView>)
        requires
            mon_idx < self@.monitors.len(),
        ensures
            match v {
                Some(w) => self@.active_view(self@.monitors[mon_idx as int].output.id) == Some(w@),
                None => self@.active_view(self@.monitors[mon_idx as int].output.id) is None,
            },
    {
        self.activities.view_on(self.activities.active, self.monitors[mon_idx].output.id)
    }

    /// What slides out of monitor `mon_idx` while activities are being switched: what the activity
    /// that was active before shows there.
    pub fn outgoing_ctx_for(&self, mon_idx: usize) -> (v: Option<&WorkspaceView>)
        requires
            mon_idx < self@.monitors.len(),
        ensures
            match self@.monitors[mon_idx as int].activity_switch {
                Some(s) => match v {
                    Some(w) => self@.view_of(s.from, self@.monitors[mon_idx as int].output.id)
                        == Some(w@),
                    None => self@.view_of(s.from, self@.monitors[mon_idx as int].output.id) is None,
                },
                None => v is None,
            },
    {
        match self.monitors[mon_idx].activity_switch {
            Some(s) => self.activities.view_on(s.from, self.monitors[mon_idx].output.id),
            None => None,
        }
    }

    /// The workspace that has to hear of a commit of `window`; none if it is being dragged or
    /// belongs to another activity alone.
    pub fn update_window(&self, window: WindowId) -> (id: Option<WorkspaceId>)
        ensures
            id == if self@.is_dragged(window) {
                None
            } else {
                self@.resident_workspace(window)
            },
    {
        if self.is_dragged(window) {
            None
        } else {
            self.resident_workspace(window)
        }
    }

    /// The workspace that has to begin resizing `window`.
    pub fn interactive_resize_begin(&self, window: WindowId) -> (id: Option<WorkspaceId>)
        ensures
            id == self@.resident_workspace(window),
    {
        self.resident_workspace(window)
    }

    /// The workspace that has to go on resizing `window`; none if it is being dragged.
    pub fn interactive_resize_update(&self, window: WindowId) -> (id: Option<WorkspaceId>)
        ensures
            id == if self@.is_dragged(window) {
                None
            } else {
                self@.resident_workspace(window)
            },
    {
        self.update_window(window)
    }

    /// The workspace that has to stop resizing `window`; none if it is being dragged.
    pub fn interactive_resize_end(&self, window: WindowId) -> (id: Option<WorkspaceId>)
        ensures
            id == if self@.is_dragged(window) {
                None
            } else {
                self@.resident_workspace(window)
            },
    {
        self.update_window(window)
    }
}

/// More monitors make the strip no shorter.
pub proof fn lemma_strip_grows(s: LayoutModel, k: int, n: int)
    requires
        k <= n,
    ensures
        s.strip(k).len() <= s.strip(n).len(),
    decreases n - k,
{
    if k < n {
        lemma_strip_grows(s, k, n - 1);
    }
}

} // verus!
