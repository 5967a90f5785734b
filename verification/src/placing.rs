//! Windows come where they are put, and what they are put on becomes the output's own.

use vstd::prelude::*;

use crate::coherence::{
    alike, lemma_alike, lemma_alike_coherent, lemma_get, lemma_get_put, lemma_put_alike,
    lemma_view_is_ok, lemma_with_view_coherent, view_ok,
};
use crate::ids::{OutputId, WindowId, WorkspaceId};
use crate::keeping::{law_normalize_adds_only, lemma_mint_into};
use crate::keeping_outputs::lemma_alike_trans;
use crate::keeping_views::lemma_mint;
use crate::layout::{InteractiveMoveState, LayoutModel};
use crate::lookup::having;
use crate::pool::PoolModel;
use crate::search::{find, lemma_find_from};
use crate::transfer::lemma_view_after_set;
use crate::windows::{id_having, takes_focus, ActivateWindow, AddWindowTarget};
use crate::workspace::{shows, Tile, WorkspaceModel};

verus! {

/// Workspace `w` after a window came to it on output `out`: it is routed there from now on.
pub open spec fn settled_in(w: WorkspaceModel, out: OutputId) -> WorkspaceModel {
    WorkspaceModel { output_id: Some(out), ..w }
}

/// What adding a window to a workspace of a monitor does to the pool.
pub proof fn lemma_claimed(s: LayoutModel, mon: int, id: WorkspaceId, tile: Tile, focus: bool)
    requires
        s.coherent(),
        s.pool.has(id),
    ensures
        ({
            let t = LayoutModel { pool: s.pool.add_tile(id, tile, focus), ..s }.claim(mon, id);
            &&& t.coherent()
            &&& t == LayoutModel { pool: t.pool, ..s }
            &&& alike(s.pool, t.pool)
            &&& t.pool.get(id) == Some(
                settled_in(
                    s.pool.get(id).unwrap().add_tile(tile, focus),
                    s.monitors[mon].output.id,
                ),
            )
            &&& forall|x: WorkspaceId| x != id ==> #[trigger] t.pool.get(x) == s.pool.get(x)
        }),
{
    lemma_get(s.pool, id);
    let w = s.pool.get(id).unwrap();
    let w1 = w.add_tile(tile, focus);
    lemma_put_alike(s.pool, id, w1);
    lemma_get_put(s.pool, id, w1);
    let q = s.pool.add_tile(id, tile, focus);
    let s1 = LayoutModel { pool: q, ..s };
    let t = s1.claim(mon, id);
    lemma_alike_coherent(s, q);
    let out = s.monitors[mon].output.id;
    let w2 = WorkspaceModel { output_id: Some(out), ..w1 };
    lemma_get(q, id);
    lemma_put_alike(q, id, w2);
    lemma_get_put(q, id, w2);
    lemma_alike_trans(s.pool, q, t.pool);
    lemma_alike_coherent(s, t.pool);
    assert forall|x: WorkspaceId| x != id implies #[trigger] t.pool.get(x) == s.pool.get(x) by {
        assert(q.get(x) == s.pool.get(x));
    }
}

/// Giving the focus to a workspace keeps the layout coherent and changes no workspace.
pub proof fn lemma_focus_on(s: LayoutModel, mon: int, idx: int)
    requires
        s.coherent(),
        0 <= mon < s.monitors.len(),
    ensures
        s.focus_on(mon, idx).coherent(),
        s.focus_on(mon, idx).pool == s.pool,
        s.focus_on(mon, idx).acts.active == s.acts.active,
        match s.active_view(s.monitors[mon].output.id) {
            Some(v) => match s.focus_on(mon, idx).view_of(
                s.acts.active,
                s.monitors[mon].output.id,
            ) {
                Some(w) => w.ids == v.ids && (0 <= idx < v.ids.len() ==> w.active == v.ids[idx]),
                None => false,
            },
            None => true,
        },
{
    let m = s.monitors[mon];
    let act = s.acts.active;
    if let Some(v) = s.active_view(m.output.id) {
        if 0 <= idx < v.ids.len() {
            lemma_view_is_ok(s, act, m.output.id);
            let u = v.activate(idx);
            assert(v.ids.contains(v.ids[idx]));
            assert(view_ok(s.pool, act, u));
            lemma_with_view_coherent(s, act, m.output.id, u);
            lemma_view_after_set(s.acts, act, m.output.id, u);
        }
    }
}

/// A window that is put on a workspace is there; the workspace is the
/// output's own from then on. No other workspace changes, and an empty one still ends the view.
pub proof fn law_placing_claims(
    s: LayoutModel,
    mon: int,
    idx: int,
    tile: Tile,
    focus: bool,
    switch: bool,
)
    requires
        s.coherent(),
        0 <= mon < s.monitors.len(),
        match s.active_view(s.monitors[mon].output.id) {
            Some(v) => 0 <= idx < v.ids.len(),
            None => false,
        },
        s.place(mon, idx, tile, focus, switch).fits(),
    ensures
        ({
            let t = s.place(mon, idx, tile, focus, switch);
            let out = s.monitors[mon].output.id;
            let v = s.active_view(out).unwrap();
            let id = v.ids[idx];
            &&& t.coherent()
            &&& t.pool.get(id) == Some(
                settled_in(s.pool.get(id).unwrap().add_tile(tile, focus), out),
            )
            &&& forall|x: WorkspaceId| #[trigger]
                s.pool.has(x) && x != id ==> t.pool.get(x) == s.pool.get(x)
            &&& forall|x: WorkspaceId| #[trigger] t.pool.busy(x) ==> x == id || s.pool.busy(x)
            &&& t.acts.active == s.acts.active
            &&& t.shows_on(s.acts.active, out, id)
            &&& !s.pool.busy(v.ids.last()) ==> !t.pool.busy(
                t.view_of(s.acts.active, out).unwrap().ids.last(),
            )
            &&& switch ==> t.view_of(s.acts.active, out).unwrap().active == id
        }),
{
    let m = s.monitors[mon];
    let out = m.output.id;
    let act = s.acts.active;
    let v = s.active_view(out).unwrap();
    let id = v.ids[idx];
    let n = v.ids.len() as int;
    let t = s.place(mon, idx, tile, focus, switch);
    lemma_view_is_ok(s, act, out);
    assert(v.ids.contains(id));
    assert(s.pool.member(id, act));
    lemma_claimed(s, mon, id, tile, focus);
    let s1 = LayoutModel { pool: s.pool.add_tile(id, tile, focus), ..s }.claim(mon, id);
    lemma_alike(s.pool, s1.pool);
    let low = idx == n - 1;
    let s2 = if low {
        s1.add_workspace_bottom(mon)
    } else {
        s1
    };
    let bottom = s1.pool.next_id();
    let v2 = if low {
        v.insert(n, bottom)
    } else {
        v
    };
    let lead = m.empty_workspace_above_first && idx == 0;
    let s3 = if lead {
        s2.add_workspace_top(mon)
    } else {
        s2
    };
    let top = s2.pool.next_id();
    let v3 = if lead {
        v2.insert(0, top)
    } else {
        v2
    };
    let at = if lead {
        1int
    } else {
        idx
    };
    crate::bookends::lemma_mint_into_leads(s1, mon, act, n);
    crate::bookends::lemma_mint_into_leads(s2, mon, act, 0);
    assert(s3.before(t));
    if low {
        assert(s2 == s1.mint_into(mon, act, n));
        lemma_mint(s1, out, act);
        lemma_mint_into(s1, mon, act, n);
        lemma_view_after_set(s1.acts, act, out, v2);
    }
    assert(s2.view_of(act, out) == Some(v2));
    if lead {
        lemma_mint(s2, out, act);
        lemma_mint_into(s2, mon, act, 0);
        lemma_view_after_set(s2.acts, act, out, v3);
    }
    assert(s3.view_of(act, out) == Some(v3));
    assert(v3.ids[at] == id);
    lemma_focus_on(s3, mon, at);
    assert(s3.active_view(out) == Some(v3));
    assert forall|x: WorkspaceId| #[trigger] s.pool.has(x) implies s3.pool.get(x) == s1.pool.get(
        x,
    ) by {
        assert(s1.pool.pos(x) == s.pool.pos(x));
        assert(s1.pool.has(x));
        assert(s2.pool.get(x) == s1.pool.get(x));
        assert(s2.pool.has(x));
    }
    assert forall|x: WorkspaceId| #[trigger] s3.pool.busy(x) implies x == id || s.pool.busy(x) by {
        if lead && x != top {
            assert(s2.pool.mint(out, act).get(x) == s2.pool.get(x));
        }
        if low && x != bottom {
            assert(s1.pool.mint(out, act).get(x) == s1.pool.get(x));
        }
        if x != id {
            assert(s1.pool.get(x) == s.pool.get(x));
        }
    }
    assert(v3.ids.contains(v3.ids[at]));
    if !s.pool.busy(v.ids.last()) {
        assert(!s3.pool.busy(v3.ids.last())) by {
            if low {
                assert(v2.ids.last() == bottom);
                assert(s2.pool.get(bottom) == s1.pool.mint(out, act).get(bottom));
                assert(!s2.pool.busy(bottom));
                if lead {
                    assert(v3.ids.last() == bottom);
                    assert(s2.pool.has(bottom));
                    assert(s3.pool.get(bottom) == s2.pool.get(bottom));
                }
            } else {
                let last = v.ids.last();
                assert(v.ids.contains(last));
                assert(s.pool.member(last, act));
                assert(last != id) by {
                    assert(v.ids[n - 1] != v.ids[idx]);
                }
                assert(s3.pool.get(last) == s1.pool.get(last));
                assert(s1.pool.get(last) == s.pool.get(last));
            }
        }
    }
}

/// A window that is added to what the active activity shows is on the workspace that it was meant
/// for, which is the output's own from then on. No other workspace changes.
pub proof fn law_adding_claims(
    s: LayoutModel,
    tile: Tile,
    target: AddWindowTarget,
    activate: ActivateWindow,
)
    requires
        s.coherent(),
        s.monitors.len() > 0,
        !s.is_hidden_target(target),
        match s.add_place(target) {
            Some(((mon, idx), _)) => 0 <= mon < s.monitors.len() && match s.active_view(
                s.monitors[mon].output.id,
            ) {
                Some(v) => 0 <= idx < v.ids.len(),
                None => false,
            },
            None => false,
        },
        s.add_window(tile, target, activate).fits(),
    ensures
        ({
            let t = s.add_window(tile, target, activate);
            let ((mon, idx), beside) = s.add_place(target).unwrap();
            let out = s.monitors[mon].output.id;
            let id = s.active_view(out).unwrap().ids[idx];
            let w = s.pool.get(id).unwrap();
            &&& t.coherent()
            &&& t.pool.get(id) == Some(
                settled_in(w.add_tile(tile, takes_focus(w, activate, beside)), out),
            )
            &&& forall|x: WorkspaceId| #[trigger]
                s.pool.has(x) && x != id ==> t.pool.get(x) == s.pool.get(x)
            &&& forall|x: WorkspaceId| #[trigger] t.pool.busy(x) ==> x == id || s.pool.busy(x)
            &&& t.shows_on(s.acts.active, out, id)
            &&& t.acts.active == s.acts.active
            &&& t.moving == s.moving
            &&& t.monitors.len() == s.monitors.len()
            &&& t.monitors[mon].output == s.monitors[mon].output
        }),
{
    let ((mon, idx), beside) = s.add_place(target).unwrap();
    let out = s.monitors[mon].output.id;
    let act = s.acts.active;
    let v = s.active_view(out).unwrap();
    let id = v.ids[idx];
    lemma_view_is_ok(s, act, out);
    assert(v.ids.contains(id));
    assert(s.pool.member(id, act));
    let w = s.pool.get(id).unwrap();
    let focus = takes_focus(w, activate, beside);
    let s1 = s.place(mon, idx, tile, focus, activate is Yes);
    assert(s.place_resolved(mon, idx, tile, activate, beside, true) == s1);
    let s2 = LayoutModel {
        focused: if activate is Yes {
            mon
        } else {
            s1.focused
        },
        ..s1
    };
    let t = s2.normalize();
    assert(t == s.add_window(tile, target, activate));
    crate::bookends::lemma_normalize_leads(s2);
    crate::windows::lemma_place_leads(s, mon, idx, tile, focus, activate is Yes);
    law_placing_claims(s, mon, idx, tile, focus, activate is Yes);
    assert(s2.coherent());
    law_normalize_adds_only(s2);
    let o = s.monitors[mon].output;
    crate::parking::lemma_normalize_mons_calm(s2, s2.monitors.len() as int, o);
    assert(s2.pool.has(id));
    assert forall|x: WorkspaceId| #[trigger] s.pool.has(x) && x != id implies t.pool.get(x)
        == s.pool.get(x) by {
        assert(s1.pool.get(x) == s.pool.get(x));
        assert(s2.pool.has(x));
    }
    assert forall|x: WorkspaceId| #[trigger] t.pool.busy(x) implies x == id || s.pool.busy(x) by {
        assert(t.pool.busy(x) == s2.pool.busy(x));
        assert(s1.pool.busy(x));
    }
    assert(t.shows_on(act, out, id)) by {
        let before = s2.view_of(act, out);
        let after = t.view_of(act, out);
        assert(crate::cores::kept_view(s2.pool, before, after));
        assert(s2.pool.busy(id));
        crate::keeping_views::lemma_filter(
            before.unwrap().ids,
            crate::outputs::worth_keeping(s2.pool),
        );
        assert(crate::cores::view_core(s2.pool, before).contains(id));
        if after is Some {
            crate::keeping_views::lemma_filter(
                after.unwrap().ids,
                crate::outputs::worth_keeping(s2.pool),
            );
        }
    }
    assert(s.monitors[mon].output == s1.monitors[mon].output);
    assert(s2.monitors[mon].output == t.monitors[mon].output);
}

/// A window that was added is found as it was put in.
pub proof fn law_added_window_is_found(
    s: LayoutModel,
    tile: Tile,
    target: AddWindowTarget,
    activate: ActivateWindow,
)
    requires
        s.coherent(),
        s.monitors.len() > 0,
        !s.is_hidden_target(target),
        match s.add_place(target) {
            Some(((mon, idx), _)) => 0 <= mon < s.monitors.len() && match s.active_view(
                s.monitors[mon].output.id,
            ) {
                Some(v) => 0 <= idx < v.ids.len(),
                None => false,
            },
            None => false,
        },
        s.add_window(tile, target, activate).fits(),
        !s.is_dragged(tile.window.id),
        forall|x: WorkspaceId| #[trigger]
            s.pool.has(x) ==> !s.pool.get(x).unwrap().has_window(tile.window.id),
    ensures
        s.add_window(tile, target, activate).tile_of(tile.window.id) == Some(tile),
{
    let t = s.add_window(tile, target, activate);
    let ((mon, idx), beside) = s.add_place(target).unwrap();
    let out = s.monitors[mon].output.id;
    let act = s.acts.active;
    let id = s.active_view(out).unwrap().ids[idx];
    let w = tile.window.id;
    lemma_view_is_ok(s, act, out);
    assert(s.active_view(out).unwrap().ids.contains(id));
    assert(s.pool.member(id, act));
    law_adding_claims(s, tile, target, activate);
    let old = s.pool.get(id).unwrap();
    let ws = t.pool.get(id).unwrap();
    assert(ws.tiles == old.tiles.push(tile));
    lemma_find_from(old.tiles, shows(w), 0);
    lemma_find_from(ws.tiles, shows(w), 0);
    assert(s.pool.has(id));
    assert(!old.has_window(w));
    let k = old.tiles.len() as int;
    assert(ws.tiles[k] == tile);
    assert(ws.window_pos(w) == Some(k)) by {
        let p = ws.window_pos(w).unwrap();
        if p < k {
            assert(ws.tiles[p] == old.tiles[p]);
        }
    }
    assert forall|x: WorkspaceId| #[trigger] id_having(t.pool, w)(x) implies x == id by {
        if x != id {
            let y = t.pool.get(x).unwrap();
            lemma_find_from(y.tiles, shows(w), 0);
            assert(t.pool.busy(x));
            assert(s.pool.busy(x));
            assert(s.pool.has(x));
            assert(t.pool.get(x) == s.pool.get(x));
        }
    }
    assert(id_having(t.pool, w)(id));
    let showing = t.showing_window(w);
    lemma_find_from(t.monitors, showing, 0);
    let here = t.active_view(out).unwrap();
    lemma_find_from(here.ids, id_having(t.pool, w), 0);
    let n = choose|n: int| 0 <= n < here.ids.len() && here.ids[n] == id;
    assert(id_having(t.pool, w)(here.ids[n]));
    assert(showing(t.monitors[mon]));
    let m = find(t.monitors, showing).unwrap();
    let there = t.active_view(t.monitors[m].output.id).unwrap();
    lemma_find_from(there.ids, id_having(t.pool, w), 0);
    let p = find(there.ids, id_having(t.pool, w)).unwrap();
    assert(id_having(t.pool, w)(there.ids[p]));
}

/// Holding views still or letting them go moves no window.
pub proof fn lemma_lock_all(p: PoolModel, lock: bool)
    ensures
        alike(p, p.lock_all(lock)),
        forall|x: WorkspaceId| #[trigger]
            p.lock_all(lock).get(x) == match p.get(x) {
                Some(w) => Some(WorkspaceModel { scroll_lock: lock, ..w }),
                None => None,
            },
{
    let q = p.lock_all(lock);
    assert forall|x: WorkspaceId| #[trigger] q.get(x) == match p.get(x) {
        Some(w) => Some(WorkspaceModel { scroll_lock: lock, ..w }),
        None => None,
    } by {
        lemma_alike(p, q);
        assert(q.pos(x) == p.pos(x));
        lemma_get(p, x);
    }
}

/// Taking a window off a workspace keeps the pool in order.
pub proof fn lemma_removed_wf(p: PoolModel, id: WorkspaceId, w: WindowId)
    requires
        p.wf(),
    ensures
        p.remove_window(id, w).wf(),
        alike(p, p.remove_window(id, w)),
{
    lemma_get(p, id);
    if let Some(ws) = p.get(id) {
        lemma_put_alike(p, id, ws.remove_window(w));
        lemma_alike(p, p.remove_window(id, w));
    }
}

impl LayoutModel {
    /// The layout once nobody is about to drag window `w`.
    pub open spec fn ungrabbed(self, w: WindowId) -> LayoutModel {
        match self.moving {
            Some(InteractiveMoveState::Starting { window_id }) if window_id == w => self.release(),
            _ => self,
        }
    }

    /// Window `w` taken off its workspace.
    pub open spec fn picked_off(self, w: WindowId) -> LayoutModel {
        match self.window_place(w) {
            Some((mon, idx)) => self.take_shown(mon, idx, w),
            None => match find(self.parked, id_having(self.pool, w)) {
                Some(i) => self.take_parked(i, w),
                None => match self.pool.first(having(w)) {
                    Some(id) => self.take_hidden(id, w),
                    None => self,
                },
            },
        }
    }
}

/// Taking a window off its workspace leaves the bookmarks alone.
pub proof fn lemma_picked_off_frame(s: LayoutModel, w: WindowId)
    ensures
        s.picked_off(w).bookmarks == s.bookmarks,
{
}

} // verus!
