//! A window opens on the workspace that it is meant for.

use vstd::prelude::*;

use crate::coherence::{lemma_act, lemma_get, lemma_view_is_ok};
use crate::ids::{ActivityId, OutputId, WindowId, WorkspaceId};
use crate::layout::{on_output, LayoutModel};
use crate::pool::PoolModel;
use crate::persisting::{lemma_mended_view, lemma_mended_work};
use crate::search::{equal_to, find, lemma_find_from};
use crate::tallying::{
    count_on, lemma_add_counts, lemma_counted, lemma_idle_counts, lemma_mended_places,
    lemma_put_counts, lemma_work_places, one_put,
};
use crate::transfer::{lemma_view_after_set, lemma_view_after_set_other};
use crate::windows::{id_having, takes_focus, ActivateWindow, AddWindowTarget};
use crate::workspace::{Output, Tile, WorkspaceModel};

verus! {

/// What placing a window on a workspace of a monitor does to the views.
pub proof fn lemma_place_views(
    s: LayoutModel,
    mon: int,
    idx: int,
    tile: Tile,
    focus: bool,
    switch: bool,
)
    requires
        s.coherent(),
        s.shown_once(),
        0 <= mon < s.monitors.len(),
        0 <= idx < s.view_len(mon),
        s.place(mon, idx, tile, focus, switch).fits(),
    ensures
        ({
            let t = s.place(mon, idx, tile, focus, switch);
            let act = s.acts.active;
            let out = s.monitors[mon].output.id;
            let v = s.active_view(out).unwrap();
            &&& t.coherent()
            &&& t.shown_once()
            &&& match t.view_of(act, out) {
                Some(w) => {
                    &&& w.active == if switch {
                        v.ids[idx]
                    } else {
                        v.active
                    }
                    &&& forall|x: WorkspaceId| #[trigger] v.ids.contains(x) ==> w.ids.contains(x)
                    &&& idx + 1 < v.ids.len() && !(s.monitors[mon].empty_workspace_above_first && idx
                        == 0) ==> w.ids == v.ids
                },
                None => false,
            }
            &&& forall|a: ActivityId, o: OutputId|
                a != act || o != out ==> #[trigger] t.view_of(a, o) == s.view_of(a, o)
        }),
{
    let m = s.monitors[mon];
    let out = m.output.id;
    let act = s.acts.active;
    let v = s.active_view(out).unwrap();
    let id = v.ids[idx];
    let n = v.ids.len() as int;
    let t = s.place(mon, idx, tile, focus, switch);
    lemma_view_is_ok(s, act, out);
    assert(v.ids.contains(id));
    assert(s.pool.member(id, act));
    crate::placing::law_placing_claims(s, mon, idx, tile, focus, switch);
    crate::placing::lemma_claimed(s, mon, id, tile, focus);
    let s1 = LayoutModel { pool: s.pool.add_tile(id, tile, focus), ..s }.claim(mon, id);
    crate::belonging::lemma_same_once(s, s1);
    let low = idx == n - 1;
    let s2 = if low {
        s1.add_workspace_bottom(mon)
    } else {
        s1
    };
    let bottom = s1.pool.next_id();
    let v2 = if low {
        v.insert(n, bottom)
    } else {
        v
    };
    let lead = m.empty_workspace_above_first && idx == 0;
    let s3 = if lead {
        s2.add_workspace_top(mon)
    } else {
        s2
    };
    let top = s2.pool.next_id();
    let v3 = if lead {
        v2.insert(0, top)
    } else {
        v2
    };
    let at = if lead {
        1int
    } else {
        idx
    };
    crate::bookends::lemma_mint_into_leads(s1, mon, act, n);
    crate::bookends::lemma_mint_into_leads(s2, mon, act, 0);
    assert(s3.before(t));
    if low {
        crate::keeping::lemma_mint_into(s1, mon, act, n);
        crate::belonging::lemma_mint_into_once(s1, mon, act, n);
        lemma_view_after_set(s1.acts, act, out, v2);
    }
    assert(s2.view_of(act, out) == Some(v2));
    if lead {
        crate::keeping::lemma_mint_into(s2, mon, act, 0);
        crate::belonging::lemma_mint_into_once(s2, mon, act, 0);
        lemma_view_after_set(s2.acts, act, out, v3);
    }
    assert(s3.view_of(act, out) == Some(v3));
    assert forall|a: ActivityId, o: OutputId| a != act || o != out implies #[trigger] s3.view_of(
        a,
        o,
    ) == s.view_of(a, o) by {
        lemma_view_after_set_other(s1.acts, act, out, v2, a, o);
        lemma_view_after_set_other(s2.acts, act, out, v3, a, o);
    }
    assert forall|x: WorkspaceId| #[trigger] v.ids.contains(x) implies v3.ids.contains(x) by {
        crate::disconnecting::lemma_insert_contains(v.ids, n, bottom, x);
        crate::disconnecting::lemma_insert_contains(v2.ids, 0, top, x);
    }
    assert(v3.ids[at] == id);
    if switch {
        crate::placing::lemma_focus_on(s3, mon, at);
        assert(s3.active_view(out) == Some(v3));
        assert(t == s3.focus_on(mon, at));
        assert forall|a: ActivityId, o: OutputId| a != act || o != out implies #[trigger] t.view_of(
            a,
            o,
        ) == s.view_of(a, o) by {
            lemma_view_after_set_other(s3.acts, act, out, v3.activate(at), a, o);
            assert(s3.view_of(a, o) == s.view_of(a, o));
        }
        assert(t.shown_once()) by {
            assert forall|a: ActivityId, o: OutputId, x: WorkspaceId| #[trigger] t.shows_on(
                a,
                o,
                x,
            ) implies s3.shows_on(a, o, x) by {
                if a != act || o != out {
                    assert(t.view_of(a, o) == s3.view_of(a, o));
                }
            }
            crate::belonging::lemma_shrunk_once(s3, t);
        }
    }
}

/// New bookends and mending leave what is active in a view active, and hide nothing of it.
pub proof fn lemma_settled_view(s: LayoutModel, a: ActivityId, o: OutputId)
    requires
        s.coherent(),
        s.shown_once(),
        s.monitors.len() > 0,
        s.monitor_pos(o) is Some,
        s.view_of(a, o) is Some,
        s.normalize().mended().fits(),
    ensures
        match (s.view_of(a, o), s.normalize().mended().view_of(a, o)) {
            (Some(v), Some(w)) => {
                &&& w.active == v.active
                &&& w.ids.filter(|x: WorkspaceId| v.ids.contains(x)) == v.ids
                &&& forall|x: WorkspaceId| #[trigger] v.ids.contains(x) ==> w.ids.contains(x)
            },
            _ => false,
        },
{
    let n = s.monitors.len() as int;
    let b = s.normalize();
    let v = s.view_of(a, o).unwrap();
    let q = |x: WorkspaceId| v.ids.contains(x);
    crate::mending::lemma_mended_leads(b);
    crate::bookends::lemma_normalize_leads(s);
    crate::keeping::law_normalize_adds_only(s);
    crate::belonging::lemma_normalize_mons_once(s, n);
    crate::wholeness::lemma_same_monitor(s, b, o);
    lemma_view_is_ok(s, a, o);
    assert forall|x: WorkspaceId| #[trigger] q(x) implies s.shows_on(a, o, x) by {}
    crate::returning::lemma_normalize_pick(s, n, a, o, q);
    let u = b.view_of(a, o).unwrap();
    assert(q(v.active));
    crate::keeping_views::lemma_filter(v.ids, q);
    crate::keeping_views::lemma_filter(u.ids, q);
    assert forall|p: OutputId, x: WorkspaceId| p != o && #[trigger] b.shows_on(
        a,
        p,
        x,
    ) implies !u.ids.contains(x) by {
        assert(!b.shows_on(a, o, x));
    }
    lemma_mended_view(b, a, o);
    let w = b.mended().view_of(a, o).unwrap();
    assert forall|x: WorkspaceId| #[trigger] v.ids.contains(x) implies w.ids.contains(x) by {
        assert(q(x));
        assert(v.ids.filter(q).contains(x));
        assert(u.ids.filter(q).contains(x));
        assert(u.ids.contains(x));
    }
    let q2 = |x: WorkspaceId| u.ids.contains(x);
    assert forall|i: int| 0 <= i < w.ids.len() && #[trigger] q(w.ids[i]) implies q2(w.ids[i]) by {
        assert(v.ids.filter(q).contains(w.ids[i]));
        assert(u.ids.filter(q).contains(w.ids[i]));
    }
    crate::cores::lemma_filter_filter(w.ids, q2, q);
    assert forall|i: int| 0 <= i < v.ids.len() implies q(#[trigger] v.ids[i]) by {}
    crate::cores::lemma_filter_all(v.ids, q);
}

/// A window that is added at a place of a monitor is on the workspace there, and gets the focus if
/// that was asked for. Otherwise the focus stays. No other window moves.
pub proof fn lemma_lands(
    s: LayoutModel,
    tile: Tile,
    target: AddWindowTarget,
    activate: ActivateWindow,
    mon: int,
    idx: int,
    beside: Option<WindowId>,
)
    requires
        s.whole(),
        s.monitors.len() > 0,
        !s.is_hidden_target(target),
        s.add_place(target) == Some(((mon, idx), beside)),
        0 <= mon < s.monitors.len(),
        0 <= idx < s.view_len(mon),
        s.add_window(tile, target, activate).mended().fits(),
    ensures
        ({
            let t = s.add_window(tile, target, activate).mended();
            let act = s.acts.active;
            let out = s.monitors[mon].output.id;
            let id = s.active_view(out).unwrap().ids[idx];
            &&& one_put(s.pool, t.pool, tile.window.id, id)
            &&& t.pool.has(id)
            &&& t.pool.get(id).unwrap().tiles == s.pool.get(id).unwrap().tiles.push(tile)
            &&& t.pool.get(id).unwrap().name == s.pool.get(id).unwrap().name
            &&& t.acts.active == act
            &&& t.shows_on(act, out, id)
            &&& activate is Yes ==> t.focused == mon && t.view_of(act, out).unwrap().active == id
                && t.pool.get(id).unwrap().active == Some(tile.window.id)
            &&& !(activate is Yes) ==> t.focused == s.focused && t.view_of(act, out).unwrap().active
                == s.view_of(act, out).unwrap().active
            &&& activate is Smart && beside is None ==> t.pool.get(id).unwrap().active
                == match s.pool.get(id).unwrap().active_tile() {
                Some(front) => if front.window.pending_sizing_mode is Fullscreen {
                    s.pool.get(id).unwrap().active
                } else {
                    Some(tile.window.id)
                },
                None => Some(tile.window.id),
            }
            &&& activate is No && s.pool.get(id).unwrap().active is Some
                ==> t.pool.get(id).unwrap().active == s.pool.get(id).unwrap().active
            &&& forall|a: ActivityId, o: OutputId|
                (a != act || o != out) && s.view_of(a, o) is Some ==> (#[trigger] t.view_of(
                    a,
                    o,
                )) is Some && t.view_of(a, o).unwrap().active == s.view_of(a, o).unwrap().active
        }),
{
    let r = s.add_window(tile, target, activate);
    let t = r.mended();
    let act = s.acts.active;
    let out = s.monitors[mon].output.id;
    let v = s.active_view(out).unwrap();
    let id = v.ids[idx];
    lemma_view_is_ok(s, act, out);
    assert(v.ids.contains(id));
    assert(s.pool.member(id, act));
    crate::mending::lemma_mended_leads(r);
    crate::placing::law_adding_claims(s, tile, target, activate);
    let w = s.pool.get(id).unwrap();
    let focus = takes_focus(w, activate, beside);
    let s1 = s.place(mon, idx, tile, focus, activate is Yes);
    let s2 = LayoutModel {
        focused: if activate is Yes {
            mon
        } else {
            s1.focused
        },
        ..s1
    };
    assert(s.place_resolved(mon, idx, tile, activate, beside, true) == s1);
    assert(r == s2.normalize());
    crate::bookends::lemma_normalize_leads(s2);
    crate::windows::lemma_place_leads(s, mon, idx, tile, focus, activate is Yes);
    lemma_place_views(s, mon, idx, tile, focus, activate is Yes);
    crate::belonging::lemma_same_once(s1, s2);
    assert(s2.coherent());
    assert(one_put(s.pool, r.pool, tile.window.id, id)) by {
        let ws = r.pool.get(id).unwrap();
        assert(w.tiles.push(tile).drop_last() =~= w.tiles);
        assert forall|x: WorkspaceId, u: WindowId| #[trigger]
            count_on(r.pool, x, u) == count_on(s.pool, x, u) + if x == id && u == tile.window.id {
                1int
            } else {
                0
            } by {
            if x != id {
                if s.pool.has(x) {
                    assert(r.pool.get(x) == s.pool.get(x));
                } else {
                    if r.pool.busy(x) {
                        assert(s.pool.busy(x));
                    }
                    lemma_idle_counts(r.pool, x, u);
                }
            }
        }
    }
    lemma_mended_places(r);
    lemma_mended_work(r);
    assert(r.pool.busy(id)) by {
        assert(r.pool.get(id).unwrap().tiles.len() > 0);
    }
    assert forall|x: WorkspaceId, u: WindowId| #[trigger] count_on(t.pool, x, u) == count_on(
        s.pool,
        x,
        u,
    ) + if x == id && u == tile.window.id {
        1int
    } else {
        0
    } by {
        assert(count_on(t.pool, x, u) == count_on(r.pool, x, u));
        assert(count_on(r.pool, x, u) == count_on(s.pool, x, u) + if x == id && u
            == tile.window.id {
            1int
        } else {
            0
        });
    }
    lemma_find_from(s.monitors, on_output(out), 0);
    assert(on_output(out)(s.monitors[mon]));
    crate::wholeness::lemma_same_monitor(s, s2, out);
    lemma_settled_view(s2, act, out);
    assert forall|a: ActivityId, o: OutputId| (a != act || o != out) && s.view_of(a, o) is Some implies (
    #[trigger] t.view_of(a, o)) is Some && t.view_of(a, o).unwrap().active == s.view_of(
        a,
        o,
    ).unwrap().active by {
        assert(s.monitor_pos(o) is Some);
        crate::wholeness::lemma_same_monitor(s, s2, o);
        assert(s1.view_of(a, o) == s.view_of(a, o));
        lemma_settled_view(s2, a, o);
    }
}

/// A window that is put straight on a workspace is there once more.
pub proof fn lemma_add_to_places(
    s: LayoutModel,
    id: WorkspaceId,
    tile: Tile,
    activate: ActivateWindow,
    beside: Option<WindowId>,
)
    requires
        s.coherent(),
        s.pool.has(id),
    ensures
        ({
            let r = s.add_to(id, tile, activate, beside);
            &&& r.coherent()
            &&& one_put(s.pool, r.pool, tile.window.id, id)
            &&& r.pool.has(id)
            &&& r.pool.get(id).unwrap().tiles == s.pool.get(id).unwrap().tiles.push(tile)
            &&& r.pool.get(id).unwrap().name == s.pool.get(id).unwrap().name
        }),
{
    let w = s.pool.get(id).unwrap();
    let focus = takes_focus(w, activate, beside);
    let u = w.add_tile(tile, focus);
    lemma_get(s.pool, id);
    crate::carrying::lemma_add_to(s, id, tile, activate, beside);
    lemma_add_counts(s.pool, id, tile, focus);
    crate::coherence::lemma_get_put(s.pool, id, u);
    if let Some(out) = s.holding_output(id) {
        let q = s.pool.add_tile(id, tile, focus);
        let x = WorkspaceModel { output_id: Some(out), ..u };
        crate::coherence::lemma_get_put(q, id, x);
        lemma_put_counts(q, id, x);
        let r = s.add_to(id, tile, activate, beside);
        assert(r.pool == q.put(id, x));
        assert forall|z: WorkspaceId, y: WindowId| #[trigger] count_on(r.pool, z, y) == count_on(
            s.pool,
            z,
            y,
        ) + if z == id && y == tile.window.id {
            1int
        } else {
            0
        } by {
            assert(count_on(r.pool, z, y) == count_on(q, z, y));
        }
    }
}

/// Once the operation is over, a window is where it was put.
pub proof fn lemma_put_stays(s: LayoutModel, r: LayoutModel, tile: Tile, id: WorkspaceId)
    requires
        r.staffed(),
        r.mended().fits(),
        one_put(s.pool, r.pool, tile.window.id, id),
        s.pool.has(id),
        r.pool.has(id),
        r.pool.get(id).unwrap().tiles == s.pool.get(id).unwrap().tiles.push(tile),
        r.pool.get(id).unwrap().name == s.pool.get(id).unwrap().name,
    ensures
        one_put(s.pool, r.mended().pool, tile.window.id, id),
        r.mended().pool.has(id),
        r.mended().pool.get(id).unwrap().tiles == s.pool.get(id).unwrap().tiles.push(tile),
        r.mended().pool.get(id).unwrap().name == s.pool.get(id).unwrap().name,
{
    let t = r.mended();
    lemma_mended_places(r);
    lemma_mended_work(r);
    assert(r.pool.busy(id)) by {
        assert(r.pool.get(id).unwrap().tiles.len() > 0);
    }
    assert forall|x: WorkspaceId, u: WindowId| #[trigger] count_on(t.pool, x, u) == count_on(
        s.pool,
        x,
        u,
    ) + if x == id && u == tile.window.id {
        1int
    } else {
        0
    } by {
        assert(count_on(t.pool, x, u) == count_on(r.pool, x, u));
        assert(count_on(r.pool, x, u) == count_on(s.pool, x, u) + if x == id && u
            == tile.window.id {
            1int
        } else {
            0
        });
    }
}

/// Where a shown workspace stands in its view.
pub proof fn lemma_place_of(s: LayoutModel, o: OutputId, id: WorkspaceId) -> (k: int)
    requires
        s.coherent(),
        s.shows_on(s.acts.active, o, id),
    ensures
        0 <= k < s.active_view(o).unwrap().ids.len(),
        s.active_view(o).unwrap().ids[k] == id,
        s.active_view(o).unwrap().position_of(id) == Some(k),
{
    let v = s.active_view(o).unwrap();
    lemma_view_is_ok(s, s.acts.active, o);
    lemma_find_from(v.ids, equal_to(id), 0);
    let k = choose|k: int| 0 <= k < v.ids.len() && v.ids[k] == id;
    assert(equal_to(id)(v.ids[k]));
    k
}

/// A window that is to open on a workspace opens there, last among its windows, whether or not the
/// workspace is in sight, belongs to the active activity, or waits for an output. No other window
/// moves. If the active activity shows the workspace on output `o` and the window is to get the
/// focus, that output, the workspace and the window get it; if not, the output and the workspace
/// that have the focus keep it. If it is left open whether the window gets the focus, it is the
/// active one of its workspace, unless a fullscreen window is.
pub proof fn law_window_opens_on_its_workspace(
    s: LayoutModel,
    tile: Tile,
    id: WorkspaceId,
    activate: ActivateWindow,
)
    requires
        s.whole(),
        s.pool.has(id),
        s.add_window(tile, AddWindowTarget::Workspace(id), activate).mended().fits(),
    ensures
        ({
            let t = s.add_window(tile, AddWindowTarget::Workspace(id), activate).mended();
            let act = s.acts.active;
            &&& one_put(s.pool, t.pool, tile.window.id, id)
            &&& t.pool.has(id)
            &&& t.pool.get(id).unwrap().tiles == s.pool.get(id).unwrap().tiles.push(tile)
            &&& t.pool.get(id).unwrap().name == s.pool.get(id).unwrap().name
            &&& forall|o: OutputId| #[trigger]
                s.shows_on(act, o, id) && activate is Yes ==> t.monitors[t.focused].output.id == o
                    && t.view_of(act, o) is Some && t.view_of(act, o).unwrap().active == id
                    && t.pool.get(id).unwrap().active == Some(tile.window.id)
            &&& forall|o: OutputId| #[trigger]
                s.shows_on(act, o, id) && activate is Smart ==> t.pool.get(id).unwrap().active
                    == match s.pool.get(id).unwrap().active_tile() {
                    Some(front) => if front.window.pending_sizing_mode is Fullscreen {
                        s.pool.get(id).unwrap().active
                    } else {
                        Some(tile.window.id)
                    },
                    None => Some(tile.window.id),
                }
            &&& forall|o: OutputId| #[trigger]
                s.shows_on(act, o, id) && activate is No && s.pool.get(id).unwrap().active is Some
                    ==> t.pool.get(id).unwrap().active == s.pool.get(id).unwrap().active
            &&& forall|o: OutputId| #[trigger]
                s.shows_on(act, o, id) && !(activate is Yes) ==> t.focused == s.focused
                    && t.view_of(act, o) is Some && t.view_of(act, o).unwrap().active == s.view_of(
                    act,
                    o,
                ).unwrap().active
        }),
{
    let target = AddWindowTarget::Workspace(id);
    let r = s.add_window(tile, target, activate);
    let t = r.mended();
    let act = s.acts.active;
    crate::mending::lemma_mended_leads(r);
    lemma_act(s.acts, act);
    lemma_get(s.pool, id);
    if s.monitors.len() == 0 {
        assert forall|o: OutputId| !(#[trigger] s.shows_on(act, o, id)) by {
            if s.shows_on(act, o, id) {
                assert(s.monitor_pos(o) is Some);
                lemma_find_from(s.monitors, on_output(o), 0);
            }
        }
        lemma_add_to_places(s, id, tile, activate, None);
        lemma_put_stays(s, r, tile, id);
    } else if exists|o: OutputId| s.shows_on(act, o, id) {
        let o = choose|o: OutputId| s.shows_on(act, o, id);
        crate::wholeness::lemma_is_shown(s, act, o, id);
        assert(s.monitor_pos(o) is Some);
        lemma_find_from(s.monitors, s.showing(id), 0);
        lemma_find_from(s.monitors, on_output(o), 0);
        let k = s.monitor_pos(o).unwrap();
        let q = lemma_place_of(s, o, id);
        assert(s.showing(id)(s.monitors[k]));
        let mon = find(s.monitors, s.showing(id)).unwrap();
        let p = s.monitors[mon].output.id;
        let v = s.active_view(p).unwrap();
        lemma_find_from(v.ids, equal_to(id), 0);
        let idx = v.position_of(id).unwrap();
        assert(v.ids[idx] == id);
        assert(v.ids.contains(id));
        assert(s.shows_on(act, p, id));
        assert(p == o) by {
            if p != o {
                assert(!s.shows_on(act, p, id));
            }
        }
        let a = s.acts.get(act).unwrap();
        assert(a.output_of(id) is Some) by {
            lemma_find_from(a.views, crate::activity::holding(id), 0);
            lemma_find_from(a.views, crate::activity::keyed(o), 0);
            let j = find(a.views, crate::activity::keyed(o)).unwrap();
            assert(crate::activity::holding(id)(a.views[j]));
        }
        assert(!s.is_hidden_target(target));
        assert(s.add_place(target) == Some(((mon, idx), None::<WindowId>)));
        lemma_lands(s, tile, target, activate, mon, idx, None);
        assert forall|o2: OutputId| #[trigger] s.shows_on(act, o2, id) implies o2 == o by {
            if o2 != o {
                assert(!s.shows_on(act, o2, id));
            }
        }
        assert(t.monitors[mon].output == s.monitors[mon].output) by {
            crate::windows::lemma_place_leads(
                s,
                mon,
                idx,
                tile,
                takes_focus(s.pool.get(id).unwrap(), activate, None),
                activate is Yes,
            );
            crate::lasting::law_adding_keeps_whole(s, tile, target, activate);
            lemma_add_outputs(s, tile, target, activate, mon);
        }
    } else {
        let a = s.acts.get(act).unwrap();
        assert(a.output_of(id) is None) by {
            lemma_find_from(a.views, crate::activity::holding(id), 0);
            if let Some(j) = find(a.views, crate::activity::holding(id)) {
                let i = s.acts.pos(act).unwrap();
                crate::belonging::lemma_entry_is_view(s, i, j);
                lemma_find_from(a.views[j].view.ids, equal_to(id), 0);
                let k = a.views[j].view.position_of(id).unwrap();
                assert(a.views[j].view.ids[k] == id);
                assert(s.shows_on(act, a.views[j].output, id));
            }
        }
        assert(s.is_hidden_target(target));
        let ws = s.pool.get(id).unwrap();
        let i = s.pool.pos(id).unwrap();
        assert(crate::coherence::member_ok(s.acts, s.pool.items[i]));
        let b = ws.activities[0];
        assert(ws.activities.contains(b));
        assert(s.pool.member(id, b));
        crate::soundness::lemma_shown(s, id, b);
        assert(s.hidden_monitor(id) is Some) by {
            lemma_holding_connected(s, id);
        }
        let c = s.add_to(id, tile, activate, None);
        assert(r == c.normalize());
        lemma_add_to_places(s, id, tile, activate, None);
        crate::bookends::lemma_normalize_leads(c);
        crate::keeping::law_normalize_adds_only(c);
        let o = Output { id: OutputId(0), connector: OutputId(0) };
        crate::parking::lemma_normalize_mons_calm(c, c.monitors.len() as int, o);
        lemma_work_places(c.pool, r.pool, o);
        assert(c.pool.has(id));
        assert(r.pool.get(id) == c.pool.get(id));
        assert forall|x: WorkspaceId, u: WindowId| #[trigger] count_on(r.pool, x, u) == count_on(
            s.pool,
            x,
            u,
        ) + if x == id && u == tile.window.id {
            1int
        } else {
            0
        } by {
            assert(count_on(r.pool, x, u) == count_on(c.pool, x, u));
            assert(count_on(c.pool, x, u) == count_on(s.pool, x, u) + if x == id && u
                == tile.window.id {
                1int
            } else {
                0
            });
        }
        lemma_put_stays(s, r, tile, id);
    }
}

/// Adding a window leaves the outputs as they are.
pub proof fn lemma_add_outputs(
    s: LayoutModel,
    tile: Tile,
    target: AddWindowTarget,
    activate: ActivateWindow,
    mon: int,
)
    requires
        s.pointed(),
        0 <= mon < s.monitors.len(),
    ensures
        s.add_window(tile, target, activate).mended().monitors.len() == s.monitors.len(),
        s.add_window(tile, target, activate).mended().monitors[mon].output
            == s.monitors[mon].output,
{
    broadcast use {
        crate::moves::lemma_place_resolved_leads,
        crate::bookends::lemma_normalize_leads,
    };

    let r = s.add_window(tile, target, activate);
    crate::upholding::lemma_add_place(s, target);
    assert(crate::lasting::level(s, r));
    crate::mending::lemma_mended_leads(r);
    assert(s.monitors[mon].output == r.monitors[mon].output);
}

/// The output on which some activity shows a workspace is connected.
pub proof fn lemma_holding_connected(s: LayoutModel, id: WorkspaceId)
    requires
        s.whole(),
        s.is_shown(id),
    ensures
        s.monitor_pos(s.holding_output(id).unwrap()) is Some,
{
    lemma_find_from(s.acts.list, crate::transfer::shows_workspace(id), 0);
    let i = find(s.acts.list, crate::transfer::shows_workspace(id)).unwrap();
    let a = s.acts.list[i];
    lemma_find_from(a.views, crate::activity::holding(id), 0);
    let j = find(a.views, crate::activity::holding(id)).unwrap();
    crate::belonging::lemma_entry_is_view(s, i, j);
    assert(s.view_of(a.id, a.views[j].output) is Some);
}

/// A window that is to open on an output opens on the workspace that is active there.
pub proof fn law_window_opens_on_its_output(
    s: LayoutModel,
    tile: Tile,
    o: OutputId,
    activate: ActivateWindow,
)
    requires
        s.whole(),
        s.monitor_pos(o) is Some,
        s.add_window(tile, AddWindowTarget::Output(o), activate).mended().fits(),
    ensures
        s.active_view(o) is Some,
        ({
            let t = s.add_window(tile, AddWindowTarget::Output(o), activate).mended();
            let id = s.active_view(o).unwrap().active;
            &&& one_put(s.pool, t.pool, tile.window.id, id)
            &&& t.pool.has(id)
            &&& t.pool.get(id).unwrap().tiles == s.pool.get(id).unwrap().tiles.push(tile)
            &&& t.active_view(o) is Some
            &&& t.active_view(o).unwrap().active == id
            &&& t.monitors[t.focused].output == if activate is Yes {
                s.monitors[s.monitor_pos(o).unwrap()].output
            } else {
                s.monitors[s.focused].output
            }
        }),
{
    let target = AddWindowTarget::Output(o);
    lemma_find_from(s.monitors, on_output(o), 0);
    let mon = s.monitor_pos(o).unwrap();
    lemma_active_place(s, mon);
    let idx = s.active_place(mon).1;
    assert(s.add_place(target) == Some(((mon, idx), None::<WindowId>)));
    lemma_lands(s, tile, target, activate, mon, idx, None);
    lemma_add_outputs(s, tile, target, activate, mon);
    lemma_add_outputs(s, tile, target, activate, s.focused);
}

/// Where the active workspace of a monitor stands.
pub proof fn lemma_active_place(s: LayoutModel, mon: int)
    requires
        s.whole(),
        0 <= mon < s.monitors.len(),
    ensures
        ({
            let v = s.active_view(s.monitors[mon].output.id).unwrap();
            let k = s.active_place(mon).1;
            &&& s.active_view(s.monitors[mon].output.id) is Some
            &&& s.active_place(mon).0 == mon
            &&& 0 <= k < v.ids.len()
            &&& v.ids[k] == v.active
            &&& s.view_len(mon) == v.ids.len()
        }),
{
    let act = s.acts.active;
    let out = s.monitors[mon].output.id;
    lemma_act(s.acts, act);
    let i = s.acts.pos(act).unwrap();
    assert(s.view_of(s.acts.list[i].id, s.monitors[mon].output.id) is Some);
    lemma_view_is_ok(s, act, out);
    let v = s.active_view(out).unwrap();
    lemma_find_from(v.ids, equal_to(v.active), 0);
    let k = choose|k: int| 0 <= k < v.ids.len() && v.ids[k] == v.active;
    assert(equal_to(v.active)(v.ids[k]));
}

/// A window that may open anywhere opens on the workspace that has the focus. While no output is
/// connected it opens on the first workspace that waits, or on a new one if none does.
pub proof fn law_window_opens_where_the_focus_is(s: LayoutModel, tile: Tile, activate: ActivateWindow)
    requires
        s.whole(),
        s.add_window(tile, AddWindowTarget::Auto, activate).mended().fits(),
    ensures
        ({
            let t = s.add_window(tile, AddWindowTarget::Auto, activate).mended();
            let out = s.monitors[s.focused].output.id;
            let id = s.active_view(out).unwrap().active;
            &&& s.monitors.len() > 0 ==> s.active_view(out) is Some && one_put(
                s.pool,
                t.pool,
                tile.window.id,
                id,
            ) && t.active_view(out) is Some && t.active_view(out).unwrap().active == id && t.focused
                == s.focused
            &&& s.monitors.len() == 0 && s.parked.len() > 0 ==> one_put(
                s.pool,
                t.pool,
                tile.window.id,
                s.parked[0],
            )
            &&& s.monitors.len() == 0 && s.parked.len() == 0 ==> exists|x: WorkspaceId|
                !s.pool.has(x) && #[trigger] one_put(s.pool, t.pool, tile.window.id, x)
        }),
{
    let target = AddWindowTarget::Auto;
    let r = s.add_window(tile, target, activate);
    let t = r.mended();
    crate::mending::lemma_mended_leads(r);
    if s.monitors.len() > 0 {
        let mon = s.focused;
        lemma_active_place(s, mon);
        let idx = s.active_place(mon).1;
        lemma_lands(s, tile, target, activate, mon, idx, None);
    } else if s.parked.len() > 0 {
        let id = s.parked[0];
        assert(s.pool.busy(s.parked[0]));
        lemma_get(s.pool, id);
        lemma_add_to_places(s, id, tile, activate, None);
        lemma_put_stays(s, r, tile, id);
    } else {
        let id = s.pool.next_id();
        let l = s.ensure_parked();
        let w = WorkspaceModel {
            bound: None,
            ..WorkspaceModel::fresh(id, OutputId(0), s.acts.active)
        };
        assert(l.pool == PoolModel { items: s.pool.items.push(w), next: s.pool.next + 1 });
        assert(l.pool.next <= r.pool.next);
        crate::coherence::lemma_push(s.pool, w);
        assert(w.activities[0] == s.acts.active);
        assert(w.activities.contains(s.acts.active));
        assert(crate::coherence::member_ok(s.acts, w));
        crate::coherence::lemma_push_coherent(s, w);
        assert(l.coherent());
        lemma_add_to_places(l, id, tile, activate, None);
        assert(r == l.add_to(id, tile, activate, None));
        lemma_put_stays(l, r, tile, id);
        assert(one_put(s.pool, t.pool, tile.window.id, id)) by {
            assert forall|x: WorkspaceId, u: WindowId| #[trigger]
                count_on(t.pool, x, u) == count_on(s.pool, x, u) + if x == id && u
                    == tile.window.id {
                    1int
                } else {
                    0
                } by {
                assert(count_on(l.pool, x, u) == count_on(s.pool, x, u)) by {
                    if x == id {
                        assert(w.tiles.len() == 0);
                    }
                }
                assert(count_on(t.pool, x, u) == count_on(l.pool, x, u) + if x == id && u
                    == tile.window.id {
                    1int
                } else {
                    0
                });
            }
        }
    }
}

/// A window that is to open beside another one that the active activity shows, or that waits for an
/// output, opens on the workspace that has the other one.
pub proof fn law_window_opens_beside_another(
    s: LayoutModel,
    tile: Tile,
    w: WindowId,
    y: WorkspaceId,
    activate: ActivateWindow,
)
    requires
        s.whole(),
        s.single(),
        count_on(s.pool, y, w) > 0,
        s.monitors.len() > 0 ==> exists|o: OutputId| s.shows_on(s.acts.active, o, y),
        s.add_window(tile, AddWindowTarget::NextTo(w), activate).mended().fits(),
    ensures
        ({
            let t = s.add_window(tile, AddWindowTarget::NextTo(w), activate).mended();
            &&& one_put(s.pool, t.pool, tile.window.id, y)
            &&& t.pool.has(y)
            &&& t.pool.get(y).unwrap().tiles == s.pool.get(y).unwrap().tiles.push(tile)
        }),
{
    let target = AddWindowTarget::NextTo(w);
    let r = s.add_window(tile, target, activate);
    let act = s.acts.active;
    crate::mending::lemma_mended_leads(r);
    crate::tallying::lemma_single(s, y, w);
    lemma_counted(s.pool, y, w);
    let p = id_having(s.pool, w);
    assert(p(y));
    assert forall|x: WorkspaceId| #[trigger] p(x) implies x == y by {
        lemma_counted(s.pool, x, w);
        if x != y {
            assert(count_on(s.pool, x, w) == 0);
        }
    }
    if s.monitors.len() == 0 {
        assert(s.parked.contains(y)) by {
            assert(s.pool.has(y));
        }
        let k = choose|k: int| 0 <= k < s.parked.len() && s.parked[k] == y;
        lemma_find_from(s.parked, p, 0);
        assert(p(s.parked[k]));
        let i = find(s.parked, p).unwrap();
        assert(p(s.parked[i]));
        lemma_add_to_places(s, y, tile, activate, Some(w));
        lemma_put_stays(s, r, tile, y);
    } else {
        let o = choose|o: OutputId| s.shows_on(act, o, y);
        let (mon, idx) = lemma_window_place(s, o, w, y);
        assert(s.add_place(target) == Some(((mon, idx), Some(w))));
        lemma_lands(s, tile, target, activate, mon, idx, Some(w));
    }
}

/// The place of a window on a workspace that the active activity shows.
pub proof fn lemma_window_place(s: LayoutModel, o: OutputId, w: WindowId, y: WorkspaceId) -> (place: (
    int,
    int,
))
    requires
        s.whole(),
        s.single(),
        count_on(s.pool, y, w) > 0,
        s.shows_on(s.acts.active, o, y),
    ensures
        s.window_place(w) == Some(place),
        0 <= place.0 < s.monitors.len(),
        s.monitors[place.0].output.id == o,
        0 <= place.1 < s.view_len(place.0),
        s.active_view(o).unwrap().ids[place.1] == y,
{
    let act = s.acts.active;
    let p = id_having(s.pool, w);
    crate::tallying::lemma_single(s, y, w);
    lemma_counted(s.pool, y, w);
    assert(p(y));
    assert forall|x: WorkspaceId| #[trigger] p(x) implies x == y by {
        lemma_counted(s.pool, x, w);
        if x != y {
            assert(count_on(s.pool, x, w) == 0);
        }
    }
    let f = s.showing_window(w);
    lemma_find_from(s.monitors, f, 0);
    assert(s.monitor_pos(o) is Some);
    lemma_find_from(s.monitors, on_output(o), 0);
    let k = s.monitor_pos(o).unwrap();
    let v = s.active_view(o).unwrap();
    let q = choose|q: int| 0 <= q < v.ids.len() && v.ids[q] == y;
    lemma_find_from(v.ids, p, 0);
    assert(p(v.ids[q]));
    assert(f(s.monitors[k]));
    let mon = find(s.monitors, f).unwrap();
    let out = s.monitors[mon].output.id;
    let u = s.active_view(out).unwrap();
    lemma_find_from(u.ids, p, 0);
    let idx = find(u.ids, p).unwrap();
    assert(p(u.ids[idx]));
    assert(u.ids.contains(y));
    assert(s.shows_on(act, out, y));
    if out != o {
        assert(!s.shows_on(act, out, y));
    }
    (mon, idx)
}

} // verus!
