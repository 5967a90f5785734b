//! Mending a layout that has come apart, and looking over what is in it.

use vstd::prelude::*;

use crate::activity::ActivitiesModel;
use crate::ids::{OutputId, WindowId, WorkspaceId};
use crate::layout::{
    InteractiveMoveData, InteractiveMoveState, Layout, LayoutModel, OverviewProgress,
};
use crate::pool::{PoolModel, WorkspacePool};
use crate::reconcile::Stray;
use crate::reload::shown;
use crate::workspace::{Tile, Window, Workspace, WorkspaceModel};

verus! {

/// What the outside world sees moving.
#[derive(Debug)]
pub struct AnimationSigns {
    /// Whether the dragged tile does.
    pub tile: bool,
    /// Of each monitor, whether something on it does.
    pub monitors: Vec<bool>,
}

/// The predicate that picks what is shown though it is not in the pool.
pub open spec fn dangling(pool: PoolModel) -> spec_fn(Stray) -> bool {
    |s: Stray| !pool.has(s.id)
}

/// The predicate that picks the workspaces in the pool.
pub open spec fn pooled(pool: PoolModel) -> spec_fn(WorkspaceId) -> bool {
    |id: WorkspaceId| pool.has(id)
}

/// The windows on `tiles`, in order.
pub open spec fn window_ids(tiles: Seq<Tile>) -> Seq<WindowId> {
    Seq::new(tiles.len(), |i: int| tiles[i].window.id)
}

/// Tile `t` covering its workspace as a window or not, if its window is `w`.
pub open spec fn windowed_as(t: Tile, w: WindowId, on: bool) -> Tile {
    if t.window.id == w {
        Tile { window: Window { windowed_fullscreen: on, ..t.window }, ..t }
    } else {
        t
    }
}

/// Tile `t` covering its workspace as a window if it did not, and the other way round, if its
/// window is `w`.
pub open spec fn windowed_flip(t: Tile, w: WindowId) -> Tile {
    windowed_as(t, w, !t.window.windowed_fullscreen)
}

/// The predicate that picks the tile of window `w` if it covers its workspace as a window.
pub open spec fn windowed(w: WindowId) -> spec_fn(Tile) -> bool {
    |t: Tile| t.window.id == w && t.window.windowed_fullscreen
}

impl WorkspaceModel {
    /// Window `w` no longer covering the workspace as a window.
    pub open spec fn unwindow(self, w: WindowId) -> WorkspaceModel {
        WorkspaceModel {
            tiles: Seq::new(self.tiles.len(), |i: int| windowed_as(self.tiles[i], w, false)),
            ..self
        }
    }

    /// Window `w` covering the workspace as a window if it did not, and the other way round.
    pub open spec fn flip_windowed(self, w: WindowId) -> WorkspaceModel {
        WorkspaceModel {
            tiles: Seq::new(self.tiles.len(), |i: int| windowed_flip(self.tiles[i], w)),
            ..self
        }
    }

    /// Whether window `w` covers the workspace as a window.
    pub open spec fn has_windowed(self, w: WindowId) -> bool {
        crate::search::find(self.tiles, windowed(w)) is Some
    }
}

impl PoolModel {
    /// Window `w` no longer covering any of the workspaces `ids` as a window.
    pub open spec fn unwindow(self, ids: Seq<WorkspaceId>, w: WindowId) -> PoolModel {
        PoolModel {
            items: Seq::new(
                self.items.len(),
                |i: int|
                    if ids.contains(self.items[i].id) {
                        self.items[i].unwindow(w)
                    } else {
                        self.items[i]
                    },
            ),
            ..self
        }
    }

    /// Window `w` covering its workspace as a window if it did not, and the other way round.
    pub open spec fn flip_windowed(self, w: WindowId) -> PoolModel {
        PoolModel {
            items: Seq::new(self.items.len(), |i: int| self.items[i].flip_windowed(w)),
            ..self
        }
    }

    /// The windows on the workspaces `ids`, in order.
    pub open spec fn windows_on(self, ids: Seq<WorkspaceId>) -> Seq<WindowId>
        decreases ids.len(),
    {
        if ids.len() == 0 {
            Seq::empty()
        } else {
            self.windows_on(ids.drop_last()) + match self.get(ids.last()) {
                Some(w) => window_ids(w.tiles),
                None => Seq::empty(),
            }
        }
    }
}

/// The windows on the workspaces `items`, in order.
pub open spec fn windows_in(items: Seq<WorkspaceModel>) -> Seq<WindowId>
    decreases items.len(),
{
    if items.len() == 0 {
        Seq::empty()
    } else {
        windows_in(items.drop_last()) + window_ids(items.last().tiles)
    }
}

impl ActivitiesModel {
    /// What `work` names gone from every view.
    pub open spec fn drop_each(self, work: Seq<Stray>) -> ActivitiesModel
        decreases work.len(),
    {
        if work.len() == 0 {
            self
        } else {
            self.drop_each(work.drop_last()).drop_workspace(work.last().id)
        }
    }
}

impl LayoutModel {
    /// What is shown though it is not in the pool.
    pub open spec fn zombies(self) -> Seq<Stray> {
        shown(self.acts.list).filter(dangling(self.pool))
    }

    /// Nothing shown and nothing parked but what is in the pool.
    pub open spec fn repair(self) -> LayoutModel {
        LayoutModel {
            acts: self.acts.drop_each(self.zombies()),
            parked: self.parked.filter(pooled(self.pool)),
            ..self
        }
    }

    /// The workspaces on screen, then the parked ones.
    pub open spec fn present(self) -> Seq<WorkspaceId> {
        self.strip(self.monitors.len() as int) + self.parked
    }

    /// The dragged window, if there is one.
    pub open spec fn dragged(self) -> Seq<WindowId> {
        match self.moving {
            Some(InteractiveMoveState::Moving(d)) => seq![d.tile.window.id],
            _ => Seq::empty(),
        }
    }

    /// Whether window `w`, where the active activity has it, covers its workspace as a window.
    pub open spec fn is_windowed(self, w: WindowId) -> bool {
        ||| self.moving matches Some(InteractiveMoveState::Moving(d)) && d.tile.window.id == w
            && d.tile.window.windowed_fullscreen
        ||| exists|i: int|
            0 <= i < self.pool.items.len() && self.present().contains(
                (#[trigger] self.pool.items[i]).id,
            ) && self.pool.items[i].has_windowed(w)
    }

    /// Window `w` no longer covering its workspace as a window, where the active activity has it.
    pub open spec fn unwindow(self, w: WindowId) -> LayoutModel {
        LayoutModel {
            pool: self.pool.unwindow(self.present(), w),
            moving: match self.moving {
                Some(InteractiveMoveState::Moving(d)) => Some(
                    InteractiveMoveState::Moving(
                        InteractiveMoveData { tile: windowed_as(d.tile, w, false), ..d },
                    ),
                ),
                _ => self.moving,
            },
            ..self
        }
    }

    /// Window `w` covering its workspace as a window if it did not, and the other way round.
    pub open spec fn flip_windowed(self, w: WindowId) -> LayoutModel {
        LayoutModel {
            pool: self.pool.flip_windowed(w),
            moving: match self.moving {
                Some(InteractiveMoveState::Moving(d)) => Some(
                    InteractiveMoveState::Moving(
                        InteractiveMoveData { tile: windowed_flip(d.tile, w), ..d },
                    ),
                ),
                _ => self.moving,
            },
            ..self
        }
    }

    /// Whether something moves on output `out`, or on any: a drag that may scroll there, the
    /// dragged tile, the overview, or something on the monitor.
    pub open spec fn animates(self, out: Option<OutputId>, tile: bool, monitors: Seq<bool>) -> bool {
        ||| self.dnd is Some && (out is None || out == Some(self.dnd.unwrap().output.id))
        ||| self.moving matches Some(InteractiveMoveState::Moving(d)) && (out is None || out
            == Some(d.output.id)) && (tile || !d.tile.floating || self.overview_open)
        ||| self.progress == Some(OverviewProgress::Animation)
        ||| exists|m: int|
            0 <= m < self.monitors.len() && (out is None || out == Some(
                (#[trigger] self.monitors[m]).output.id,
            )) && monitors[m]
    }
}

impl Workspace {
    /// Makes window `w` no longer cover the workspace as a window.
    fn unwindow(&mut self, w: WindowId)
        ensures
            final(self)@ == old(self)@.unwindow(w),
    {
        let ghost start = self@;
        let mut i: usize = 0;
        while i < self.tiles.len()
            invariant
                i <= self.tiles@.len(),
                self.tiles@.len() == start.tiles.len(),
                self@ == (WorkspaceModel { tiles: self.tiles@, ..start }),
                forall|j: int|
                    0 <= j < i ==> #[trigger] self.tiles@[j] == start.unwindow(w).tiles[j],
                forall|j: int|
                    i <= j < self.tiles@.len() ==> #[trigger] self.tiles@[j] == start.tiles[j],
            decreases self.tiles@.len() - i,
        {
            if self.tiles[i].window.id == w {
                self.tiles[i].window.windowed_fullscreen = false;
            }
            i = i + 1;
        }
        assert(self.tiles@ =~= start.unwindow(w).tiles);
    }

    /// Makes window `w` cover the workspace as a window if it did not, and the other way round.
    fn flip_windowed(&mut self, w: WindowId)
        ensures
            final(self)@ == old(self)@.flip_windowed(w),
    {
        let ghost start = self@;
        let mut i: usize = 0;
        while i < self.tiles.len()
            invariant
                i <= self.tiles@.len(),
                self.tiles@.len() == start.tiles.len(),
                self@ == (WorkspaceModel { tiles: self.tiles@, ..start }),
                forall|j: int|
                    0 <= j < i ==> #[trigger] self.tiles@[j] == start.flip_windowed(w).tiles[j],
                forall|j: int|
                    i <= j < self.tiles@.len() ==> #[trigger] self.tiles@[j] == start.tiles[j],
            decreases self.tiles@.len() - i,
        {
            if self.tiles[i].window.id == w {
                let on = !self.tiles[i].window.windowed_fullscreen;
                self.tiles[i].window.windowed_fullscreen = on;
            }
            i = i + 1;
        }
        assert(self.tiles@ =~= start.flip_windowed(w).tiles);
    }

    /// Whether window `w` covers the workspace as a window.
    fn has_windowed(&self, w: WindowId) -> (b: bool)
        ensures
            b == self@.has_windowed(w),
    {
        let ghost q = windowed(w);
        let mut i: usize = 0;
        while i < self.tiles.len()
            invariant
                i <= self.tiles@.len(),
                q == windowed(w),
                crate::search::find(self@.tiles, q) == crate::search::find_from(
                    self@.tiles,
                    q,
                    i as int,
                ),
            decreases self.tiles@.len() - i,
        {
            if self.tiles[i].window.id == w && self.tiles[i].window.windowed_fullscreen {
                return true;
            }
            i = i + 1;
        }
        false
    }

    /// Adds the windows of the workspace to `out`.
    pub(crate) fn list_windows(&self, out: &mut Vec<WindowId>)
        ensures
            final(out)@ == old(out)@ + window_ids(self@.tiles),
    {
        let ghost start = out@;
        let mut i: usize = 0;
        assert(start + window_ids(self@.tiles).take(0) =~= start);
        while i < self.tiles.len()
            invariant
                i <= self.tiles@.len(),
                out@ == start + window_ids(self@.tiles).take(i as int),
            decreases self.tiles@.len() - i,
        {
            out.push(self.tiles[i].window.id);
            i = i + 1;
            assert(out@ =~= start + window_ids(self@.tiles).take(i as int));
        }
        assert(window_ids(self@.tiles).take(i as int) =~= window_ids(self@.tiles));
    }
}

/// Whether `ids` holds `id`.
fn holds(ids: &Vec<WorkspaceId>, id: WorkspaceId) -> (b: bool)
    ensures
        b == ids@.contains(id),
{
    let mut i: usize = 0;
    while i < ids.len()
        invariant
            i <= ids@.len(),
            forall|j: int| 0 <= j < i ==> ids@[j] != id,
        decreases ids@.len() - i,
    {
        if ids[i] == id {
            return true;
        }
        i = i + 1;
    }
    false
}

impl WorkspacePool {
    /// Makes window `w` no longer cover any of the workspaces `ids` as a window.
    fn unwindow(&mut self, ids: &Vec<WorkspaceId>, w: WindowId)
        ensures
            final(self)@ == old(self)@.unwindow(ids@, w),
            final(self).next_id == old(self).next_id,
    {
        let ghost start = self@;
        let mut i: usize = 0;
        while i < self.items.len()
            invariant
                i <= self.items@.len(),
                self.items@.len() == start.items.len(),
                self.next_id == old(self).next_id,
                start == old(self)@,
                forall|j: int|
                    0 <= j < i ==> (#[trigger] self.items@[j])@ == start.unwindow(ids@, w).items[j],
                forall|j: int|
                    i <= j < self.items@.len() ==> (#[trigger] self.items@[j])@ == start.items[j],
            decreases self.items@.len() - i,
        {
            if holds(ids, self.items[i].id) {
                self.items[i].unwindow(w);
            }
            i = i + 1;
        }
        assert(self@.items =~= start.unwindow(ids@, w).items);
    }

    /// Makes window `w` cover its workspace as a window if it did not, and the other way round.
    fn flip_windowed(&mut self, w: WindowId)
        ensures
            final(self)@ == old(self)@.flip_windowed(w),
            final(self).next_id == old(self).next_id,
    {
        let ghost start = self@;
        let mut i: usize = 0;
        while i < self.items.len()
            invariant
                i <= self.items@.len(),
                self.items@.len() == start.items.len(),
                self.next_id == old(self).next_id,
                start == old(self)@,
                forall|j: int|
                    0 <= j < i ==> (#[trigger] self.items@[j])@ == start.flip_windowed(w).items[j],
                forall|j: int|
                    i <= j < self.items@.len() ==> (#[trigger] self.items@[j])@ == start.items[j],
            decreases self.items@.len() - i,
        {
            self.items[i].flip_windowed(w);
            i = i + 1;
        }
        assert(self@.items =~= start.flip_windowed(w).items);
    }
}

impl Layout {
    /// Takes what is not in the pool out of every view and out of the parked workspaces.
    pub fn repair_view_pool_coherence(&mut self)
        ensures
            final(self)@ == old(self)@.repair(),
            old(self)@.whole() ==> final(self)@.whole(),
            old(self)@.whole() && old(self)@.orderly() ==> final(self)@.orderly(),
    {
        proof {
            if self@.whole() {
                crate::repairing::law_repairing_coherent_is_idle(self@);
            }
        }
        let ghost start = self@;
        let work = self.zombies();
        let mut i: usize = 0;
        while i < work.len()
            invariant
                i <= work@.len(),
                self@ == (LayoutModel {
                    acts: start.acts.drop_each(work@.take(i as int)),
                    ..start
                }),
            decreases work@.len() - i,
        {
            assert(work@.take(i + 1).drop_last() =~= work@.take(i as int));
            self.activities.drop_workspace(work[i].id);
            i = i + 1;
        }
        assert(work@.take(i as int) =~= work@);
        let ghost p = pooled(start.pool);
        let mut kept: Vec<WorkspaceId> = Vec::new();
        let mut k: usize = 0;
        while k < self.disconnected_workspace_ids.len()
            invariant
                k <= self.disconnected_workspace_ids@.len(),
                p == pooled(start.pool),
                self@.pool == start.pool,
                self@.parked == start.parked,
                kept@ == start.parked.take(k as int).filter(p),
            decreases self.disconnected_workspace_ids@.len() - k,
        {
            proof {
                assert(start.parked.take(k + 1).drop_last() =~= start.parked.take(k as int));
                assert(start.parked.take(k + 1).last() == start.parked[k as int]);
                reveal(Seq::filter);
            }
            let id = self.disconnected_workspace_ids[k];
            if self.workspaces.contains(id) {
                kept.push(id);
            }
            k = k + 1;
        }
        assert(start.parked.take(k as int) =~= start.parked);
        self.disconnected_workspace_ids = kept;
    }

    /// What is shown though it is not in the pool.
    fn zombies(&self) -> (r: Vec<Stray>)
        ensures
            r@ == self@.zombies(),
    {
        let all = self.shown();
        let ghost p = dangling(self@.pool);
        let mut r: Vec<Stray> = Vec::new();
        let mut i: usize = 0;
        while i < all.len()
            invariant
                i <= all@.len(),
                p == dangling(self@.pool),
                r@ == all@.take(i as int).filter(p),
            decreases all@.len() - i,
        {
            proof {
                assert(all@.take(i + 1).drop_last() =~= all@.take(i as int));
                assert(all@.take(i + 1).last() == all@[i as int]);
                reveal(Seq::filter);
            }
            if !self.workspaces.contains(all[i].id) {
                r.push(all[i]);
            }
            i = i + 1;
        }
        assert(all@.take(i as int) =~= all@);
        r
    }

    /// The workspaces on screen, then the parked ones.
    pub fn workspaces(&self) -> (ids: Vec<WorkspaceId>)
        ensures
            ids@ == self@.present(),
    {
        let mut all = self.strip();
        let ghost shown = all@;
        let mut i: usize = 0;
        assert(shown + self@.parked.take(0) =~= shown);
        while i < self.disconnected_workspace_ids.len()
            invariant
                i <= self.disconnected_workspace_ids@.len(),
                all@ == shown + self@.parked.take(i as int),
            decreases self.disconnected_workspace_ids@.len() - i,
        {
            all.push(self.disconnected_workspace_ids[i]);
            i = i + 1;
            assert(all@ =~= shown + self@.parked.take(i as int));
        }
        assert(self@.parked.take(i as int) =~= self@.parked);
        all
    }

    /// The windows of the active activity: the dragged one, then those on its workspaces.
    pub fn windows(&self) -> (r: Vec<WindowId>)
        ensures
            r@ == self@.dragged() + self@.pool.windows_on(self@.present()),
    {
        let ids = self.workspaces();
        let mut r: Vec<WindowId> = Vec::new();
        if let Some(InteractiveMoveState::Moving(d)) = self.interactive_move {
            r.push(d.tile.window.id);
        }
        assert(r@ =~= self@.dragged());
        let ghost first = r@;
        let mut i: usize = 0;
        assert(first + self@.pool.windows_on(ids@.take(0)) =~= first);
        while i < ids.len()
            invariant
                i <= ids@.len(),
                r@ == first + self@.pool.windows_on(ids@.take(i as int)),
            decreases ids@.len() - i,
        {
            let ghost before = r@;
            assert(ids@.take(i + 1).drop_last() =~= ids@.take(i as int));
            match self.workspaces.get(ids[i]) {
                Some(w) => {
                    w.list_windows(&mut r);
                },
                None => {},
            }
            i = i + 1;
            assert(r@ =~= first + self@.pool.windows_on(ids@.take(i as int)));
        }
        assert(ids@.take(i as int) =~= ids@);
        r
    }

    /// The windows of all activities: the dragged one, then those in the pool.
    pub fn windows_all(&self) -> (r: Vec<WindowId>)
        ensures
            r@ == self@.dragged() + windows_in(self@.pool.items),
    {
        let ghost items = self@.pool.items;
        let mut r: Vec<WindowId> = Vec::new();
        if let Some(InteractiveMoveState::Moving(d)) = self.interactive_move {
            r.push(d.tile.window.id);
        }
        assert(r@ =~= self@.dragged());
        let ghost first = r@;
        let mut i: usize = 0;
        assert(first + windows_in(items.take(0)) =~= first);
        while i < self.workspaces.items.len()
            invariant
                i <= self.workspaces.items@.len(),
                items == self@.pool.items,
                r@ == first + windows_in(items.take(i as int)),
            decreases self.workspaces.items@.len() - i,
        {
            assert(items.take(i + 1).drop_last() =~= items.take(i as int));
            assert(items.take(i + 1).last() == items[i as int]);
            assert(items[i as int] == self.workspaces.items@[i as int]@);
            self.workspaces.items[i].list_windows(&mut r);
            i = i + 1;
            assert(r@ =~= first + windows_in(items.take(i as int)));
        }
        assert(items.take(i as int) =~= items);
        r
    }

    /// Whether window `w`, where the active activity has it, covers its workspace as a window.
    fn is_windowed(&self, w: WindowId) -> (b: bool)
        ensures
            b == self@.is_windowed(w),
    {
        if let Some(InteractiveMoveState::Moving(d)) = self.interactive_move {
            if d.tile.window.id == w && d.tile.window.windowed_fullscreen {
                return true;
            }
        }
        let ids = self.workspaces();
        let ghost items = self@.pool.items;
        let mut i: usize = 0;
        while i < self.workspaces.items.len()
            invariant
                i <= self.workspaces.items@.len(),
                items == self@.pool.items,
                ids@ == self@.present(),
                !(self@.moving matches Some(InteractiveMoveState::Moving(d)) && d.tile.window.id == w
                    && d.tile.window.windowed_fullscreen),
                forall|j: int|
                    0 <= j < i ==> !(self@.present().contains((#[trigger] items[j]).id)
                        && items[j].has_windowed(w)),
            decreases self.workspaces.items@.len() - i,
        {
            assert(items[i as int] == self.workspaces.items@[i as int]@);
            if holds(&ids, self.workspaces.items[i].id) && self.workspaces.items[i].has_windowed(w) {
                assert(items[i as int].has_windowed(w));
                return true;
            }
            i = i + 1;
        }
        false
    }

    /// Makes window `id` fullscreen or not. Leaving fullscreen, a window that covers its workspace
    /// as a window just stops doing so. Otherwise returns the workspace that has to do it; a
    /// dragged window has none.
    pub fn set_fullscreen(&mut self, id: WindowId, is_fullscreen: bool) -> (ws: Option<WorkspaceId>)
        ensures
            if !is_fullscreen && old(self)@.is_windowed(id) {
                ws is None && final(self)@ == old(self)@.unwindow(id)
            } else {
                final(self)@ == old(self)@ && ws == if old(self)@.is_dragged(id) {
                    None
                } else {
                    old(self)@.home_of(id)
                }
            },
            old(self)@.whole() ==> final(self)@.whole(),
            old(self)@.whole() && old(self)@.orderly() ==> final(self)@.orderly(),
    {
        proof {
            if self@.whole() {
                crate::resting::law_covering_keeps_whole(self@, id);
            }
        }
        if !is_fullscreen && self.is_windowed(id) {
            let ids = self.workspaces();
            let ghost start = self@;
            self.workspaces.unwindow(&ids, id);
            if let Some(InteractiveMoveState::Moving(d)) = self.interactive_move {
                if d.tile.window.id == id {
                    let mut tile = d.tile;
                    tile.window.windowed_fullscreen = false;
                    self.interactive_move = Some(
                        InteractiveMoveState::Moving(
                            InteractiveMoveData {
                                tile,
                                output: d.output,
                                workspace_config: d.workspace_config,
                            },
                        ),
                    );
                }
            }
            assert(self@ =~= start.unwindow(id));
            return None;
        }
        if self.is_dragged(id) {
            return None;
        }
        self.home_of(id)
    }

    /// Makes window `id` cover its workspace as a window if it does not, and the other way round.
    /// Returns the workspace that has to take it out of fullscreen first.
    pub fn toggle_windowed_fullscreen(&mut self, id: WindowId) -> (ws: Option<WorkspaceId>)
        ensures
            final(self)@ == old(self)@.flip_windowed(id),
            ws == if old(self)@.is_fullscreen(id) {
                old(self)@.home_of(id)
            } else {
                None
            },
            old(self)@.whole() ==> final(self)@.whole(),
            old(self)@.whole() && old(self)@.orderly() ==> final(self)@.orderly(),
    {
        proof {
            if self@.whole() {
                crate::resting::law_covering_keeps_whole(self@, id);
            }
        }
        let ws = if self.is_fullscreen(id) {
            self.home_of(id)
        } else {
            None
        };
        let ghost start = self@;
        self.workspaces.flip_windowed(id);
        if let Some(InteractiveMoveState::Moving(d)) = self.interactive_move {
            if d.tile.window.id == id {
                let mut tile = d.tile;
                let on = !d.tile.window.windowed_fullscreen;
                tile.window.windowed_fullscreen = on;
                self.interactive_move = Some(
                    InteractiveMoveState::Moving(
                        InteractiveMoveData {
                            tile,
                            output: d.output,
                            workspace_config: d.workspace_config,
                        },
                    ),
                );
            }
        }
        assert(self@ =~= start.flip_windowed(id));
        ws
    }

    /// Whether window `w` is fullscreen: the dragged one, or else the one in the pool.
    fn is_fullscreen(&self, w: WindowId) -> (b: bool)
        ensures
            b == self@.is_fullscreen(w),
    {
        if let Some(InteractiveMoveState::Moving(d)) = self.interactive_move {
            if d.tile.window.id == w {
                return d.tile.window.pending_sizing_mode.is_fullscreen();
            }
        }
        match self.home_of(w) {
            Some(id) => match self.workspaces.get(id) {
                Some(ws) => match ws.tile(Some(w)) {
                    Some(t) => t.window.pending_sizing_mode.is_fullscreen(),
                    None => false,
                },
                None => false,
            },
            None => false,
        }
    }

    /// Whether something moves on output `output`, or on any.
    pub fn are_animations_ongoing(&self, output: Option<OutputId>, signs: &AnimationSigns) -> (b: bool)
        requires
            signs.monitors@.len() == self@.monitors.len(),
        ensures
            b == self@.animates(output, signs.tile, signs.monitors@),
    {
        if let Some(d) = self.dnd {
            if concerns(output, d.output.id) {
                return true;
            }
        }
        if let Some(InteractiveMoveState::Moving(d)) = self.interactive_move {
            if concerns(output, d.output.id) && (signs.tile || !d.tile.floating
                || self.overview_open) {
                return true;
            }
        }
        if let Some(OverviewProgress::Animation) = self.overview_progress {
            return true;
        }
        let mut m: usize = 0;
        while m < self.monitors.len()
            invariant
                m <= self.monitors@.len(),
                signs.monitors@.len() == self@.monitors.len(),
                forall|j: int|
                    0 <= j < m ==> !((output is None || output == Some(
                        (#[trigger] self@.monitors[j]).output.id,
                    )) && signs.monitors@[j]),
            decreases self.monitors@.len() - m,
        {
            if concerns(output, self.monitors[m].output.id) && signs.monitors[m] {
                assert(output is None || output == Some(self@.monitors[m as int].output.id));
                assert(self@.animates(output, signs.tile, signs.monitors@));
                return true;
            }
            m = m + 1;
        }
        false
    }
}

impl LayoutModel {
    /// Whether window `w` is fullscreen: the dragged one, or else the one in the pool.
    pub open spec fn is_fullscreen(self, w: WindowId) -> bool {
        match self.moving {
            Some(InteractiveMoveState::Moving(d)) if d.tile.window.id == w =>
                d.tile.window.pending_sizing_mode is Fullscreen,
            _ => match self.home_of(w) {
                Some(id) => match self.pool.get(id) {
                    Some(ws) => match ws.tile(Some(w)) {
                        Some(t) => t.window.pending_sizing_mode is Fullscreen,
                        None => false,
                    },
                    None => false,
                },
                None => false,
            },
        }
    }
}

/// Whether a question about output `about`, or about any, concerns output `out`.
fn concerns(about: Option<OutputId>, out: OutputId) -> (b: bool)
    ensures
        b == (about is None || about == Some(out)),
{
    match about {
        Some(o) => o == out,
        None => true,
    }
}

} // verus!
