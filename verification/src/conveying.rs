//! A window that is moved leaves the workspace that it was on and is on the one that was asked for.

use vstd::prelude::*;

use crate::aiming::{lemma_active_place, lemma_place_views, lemma_window_place};
use crate::coherence::{lemma_get, lemma_view_is_ok};
use crate::ids::{ActivityId, OutputId, WindowId, WorkspaceId};
use crate::layout::LayoutModel;
use crate::moves::{alone, MoveWindowToPoolError, MoveWindowToPoolOutcome};
use crate::persisting::{lemma_mended_view, lemma_mended_work};
use crate::tallying::{
    count_on, lemma_counted, lemma_idle_counts, lemma_mended_places, lemma_remove_counts,
    lemma_single, lemma_work_places, one_moved,
};
use crate::windows::{takes_focus, ActivateWindow};

verus! {

/// What carrying a window from one workspace to another does to the pool and to the views.
pub proof fn lemma_carried(
    s: LayoutModel,
    mon: int,
    from: int,
    which: Option<WindowId>,
    mon2: int,
    to: int,
    activate: ActivateWindow,
    w: WindowId,
)
    requires
        s.coherent(),
        s.shown_once(),
        0 <= mon < s.monitors.len(),
        0 <= mon2 < s.monitors.len(),
        match s.workspace_at(mon, from) {
            Some(ws) => match ws.tile(which) {
                Some(t) => t.window.id == w,
                None => false,
            },
            None => false,
        },
        0 <= to < s.view_len(mon2),
        s.active_view(s.monitors[mon2].output.id).unwrap().ids[to] != s.workspace_at(
            mon,
            from,
        ).unwrap().id,
        s.carry(mon, from, which, mon2, to, activate).fits(),
    ensures
        ({
            let r = s.carry(mon, from, which, mon2, to, activate);
            let act = s.acts.active;
            let out = s.monitors[mon2].output.id;
            let x = s.workspace_at(mon, from).unwrap().id;
            let v = s.active_view(out).unwrap();
            let y = v.ids[to];
            &&& r.coherent()
            &&& r.shown_once()
            &&& s.leads_to(r)
            &&& one_moved(s.pool, r.pool, w, x, y)
            &&& r.pool.busy(y)
            &&& takes_focus(s.pool.get(y).unwrap(), activate, None) ==> r.pool.get(y).unwrap().active
                == Some(w)
            &&& match r.view_of(act, out) {
                Some(u) => {
                    &&& u.active == if activate is Yes {
                        y
                    } else {
                        v.active
                    }
                    &&& forall|z: WorkspaceId| #[trigger] v.ids.contains(z) ==> u.ids.contains(z)
                    &&& to + 1 < v.ids.len() && !(s.monitors[mon2].empty_workspace_above_first && to
                        == 0) ==> u.ids == v.ids
                },
                None => false,
            }
            &&& forall|a: ActivityId, o: OutputId|
                a != act || o != out ==> #[trigger] r.view_of(a, o) == s.view_of(a, o)
        }),
{
    let ws = s.workspace_at(mon, from).unwrap();
    let t = ws.tile(which).unwrap();
    let out = s.monitors[mon2].output.id;
    let v = s.active_view(out).unwrap();
    let x = ws.id;
    let y = v.ids[to];
    let r = s.carry(mon, from, which, mon2, to, activate);
    let q = s.pool.remove_window(x, w);
    let s1 = LayoutModel { pool: q, ..s };
    crate::carrying::lemma_workspace_at(s, mon, from);
    crate::carrying::law_carrying_moves(s, mon, from, which, mon2, to, activate);
    crate::moves::lemma_carry_leads(s, mon, from, which, mon2, to, activate);
    lemma_get(s.pool, x);
    crate::placing::lemma_removed_wf(s.pool, x, w);
    crate::coherence::lemma_get_put(s.pool, x, ws.remove_window(w));
    crate::coherence::lemma_alike_coherent(s, q);
    lemma_view_is_ok(s, s.acts.active, out);
    assert(v.ids.contains(y));
    assert(s.pool.member(y, s.acts.active));
    assert(q.get(y) == s.pool.get(y));
    let d = s.pool.get(y).unwrap();
    let focus = takes_focus(d, activate, None);
    crate::placing::law_placing_claims(s1, mon2, to, alone(t), focus, activate is Yes);
    assert(r == s1.place(mon2, to, alone(t), focus, activate is Yes));
    crate::belonging::lemma_same_once(s, s1);
    lemma_place_views(s1, mon2, to, alone(t), focus, activate is Yes);
    lemma_remove_counts(s.pool, x, w);
    lemma_counted(s.pool, x, w);
    assert(ws.has_window(w)) by {
        let named = match which {
            Some(u) => u,
            None => ws.active.unwrap(),
        };
        crate::search::lemma_find_from(ws.tiles, crate::workspace::shows(named), 0);
        assert(crate::workspace::shows(named)(ws.tiles[ws.window_pos(named).unwrap()]));
    }
    assert(d.tiles.push(alone(t)).drop_last() =~= d.tiles);
    assert forall|z: WorkspaceId, u: WindowId| #[trigger] count_on(r.pool, z, u) == count_on(
        s.pool,
        z,
        u,
    ) - (if z == x && u == w {
        1int
    } else {
        0
    }) + (if z == y && u == w {
        1int
    } else {
        0
    }) by {
        assert(count_on(q, z, u) == count_on(s.pool, z, u) - if z == x && u == w {
            1int
        } else {
            0
        });
        if z != y {
            if s1.pool.has(z) {
                assert(r.pool.get(z) == q.get(z));
            } else {
                if r.pool.busy(z) {
                    assert(q.busy(z));
                }
                lemma_idle_counts(r.pool, z, u);
            }
        }
    }
    assert(r.pool.get(y).unwrap().tiles.len() > 0);
}

/// What mending leaves of a carried window: it stays where it is, and the active workspace of each
/// view stays active.
pub proof fn lemma_carried_mended(
    s: LayoutModel,
    r: LayoutModel,
    w: WindowId,
    x: WorkspaceId,
    y: WorkspaceId,
)
    requires
        s.whole(),
        s.monitors.len() > 0,
        r.coherent(),
        r.shown_once(),
        s.leads_to(r) || (r.monitors.len() == s.monitors.len() && forall|i: int|
            0 <= i < s.monitors.len() ==> (#[trigger] s.monitors[i]).output
                == r.monitors[i].output),
        r.mended().fits(),
        one_moved(s.pool, r.pool, w, x, y),
        r.pool.busy(y),
    ensures
        one_moved(s.pool, r.mended().pool, w, x, y),
        r.mended().pool.busy(y),
        r.mended().pool.get(y).unwrap().active == r.pool.get(y).unwrap().active,
        forall|a: ActivityId, o: OutputId|
            r.view_of(a, o) is Some && s.monitor_pos(o) is Some ==> match #[trigger] r.mended().view_of(
                a,
                o,
            ) {
                Some(u) => {
                    let v = r.view_of(a, o).unwrap();
                    &&& u.active == v.active
                    &&& u.ids.filter(|z: WorkspaceId| v.ids.contains(z)) == v.ids
                    &&& forall|z: WorkspaceId| #[trigger] v.ids.contains(z) ==> u.ids.contains(z)
                },
                None => false,
            },
{
    let t = r.mended();
    lemma_mended_places(r);
    lemma_mended_work(r);
    assert(t.pool.busy(y));
    assert forall|z: WorkspaceId, u: WindowId| #[trigger] count_on(t.pool, z, u) == count_on(
        s.pool,
        z,
        u,
    ) - (if z == x && u == w {
        1int
    } else {
        0
    }) + (if z == y && u == w {
        1int
    } else {
        0
    }) by {
        assert(count_on(t.pool, z, u) == count_on(r.pool, z, u));
    }
    assert forall|a: ActivityId, o: OutputId| r.view_of(a, o) is Some && s.monitor_pos(
        o,
    ) is Some implies match #[trigger] t.view_of(a, o) {
        Some(u) => {
            let v = r.view_of(a, o).unwrap();
            &&& u.active == v.active
            &&& u.ids.filter(|z: WorkspaceId| v.ids.contains(z)) == v.ids
            &&& forall|z: WorkspaceId| #[trigger] v.ids.contains(z) ==> u.ids.contains(z)
        },
        None => false,
    } by {
        crate::wholeness::lemma_same_monitor(s, r, o);
        assert forall|p: OutputId, z: WorkspaceId| p != o && #[trigger] r.shows_on(
            a,
            p,
            z,
        ) implies !r.view_of(a, o).unwrap().ids.contains(z) by {
            assert(!r.shows_on(a, o, z));
        }
        lemma_mended_view(r, a, o);
    }
}

/// The tile of a window that is meant by name or as the focused one.
pub proof fn lemma_meant(s: LayoutModel, x: WorkspaceId, window: Option<WindowId>, w: WindowId)
    requires
        count_on(s.pool, x, w) > 0,
        window == Some(w) || (window is None && s.pool.get(x).unwrap().active == Some(w)),
    ensures
        match s.pool.get(x) {
            Some(ws) => match ws.tile(window) {
                Some(t) => t.window.id == w,
                None => false,
            },
            None => false,
        },
{
    lemma_counted(s.pool, x, w);
    let ws = s.pool.get(x).unwrap();
    crate::search::lemma_find_from(ws.tiles, crate::workspace::shows(w), 0);
}

/// What remains of the strip of a monitor that is tidied up, when it has a workspace in use.
pub proof fn lemma_tidied(s: LayoutModel, mon: int, y: WorkspaceId)
    requires
        s.coherent(),
        s.shown_once(),
        0 <= mon < s.monitors.len(),
    ensures
        ({
            let t = s.tidy(mon);
            let act = s.acts.active;
            let out = s.monitors[mon].output.id;
            &&& t.coherent()
            &&& t.shown_once()
            &&& s.leads_to(t)
            &&& forall|x: WorkspaceId, u: WindowId| #[trigger]
                count_on(t.pool, x, u) == count_on(s.pool, x, u)
            &&& forall|x: WorkspaceId| #[trigger]
                s.pool.busy(x) ==> t.pool.get(x) == s.pool.get(x)
            &&& forall|a: ActivityId, o: OutputId|
                a != act || o != out ==> #[trigger] t.view_of(a, o) == s.view_of(a, o)
            &&& s.pool.busy(y) && s.shows_on(act, out, y) ==> match t.view_of(act, out) {
                Some(u) => u.active == s.view_of(act, out).unwrap().active && u.ids.contains(y),
                None => false,
            }
        }),
{
    let t = s.tidy(mon);
    let act = s.acts.active;
    let m = s.monitors[mon];
    let out = m.output.id;
    crate::moves::lemma_tidy_leads(s, mon);
    crate::carrying::lemma_tidy(s, mon);
    if m.workspace_switch is None {
        crate::tending::lemma_clean_up_shrinks(s, mon, y);
        crate::belonging::lemma_shrunk_once(s, t);
        crate::keeping_views::lemma_clean_up(s, mon);
        crate::cores::lemma_clean_up_calm(s, mon, m.output);
        lemma_work_places(s.pool, t.pool, m.output);
        assert forall|b: OutputId, x: WorkspaceId| b != out && #[trigger] s.shows_on(
            act,
            b,
            x,
        ) implies !s.shows_on(act, out, x) by {}
        crate::connecting::lemma_clean_up_views(s, mon);
        if s.pool.busy(y) && s.shows_on(act, out, y) {
            crate::declaring::lemma_clean_up_exact(s, mon, y);
            let v = s.active_view(out).unwrap();
            crate::keeping_views::lemma_filter(
                v.ids,
                crate::reclaim::kept(s.pool, v, m.empty_workspace_above_first),
            );
        }
    }
}

/// Moving window `w`, by name or as the focused one, to place `idx` of the strip that shows it takes
/// it from its workspace `x` to the one at that place, or to the last one if the strip is shorter.
/// Nothing else moves. The workspace that it went to is shown, and it has the focus there, if that
/// was asked for, or left open and the window had it. Otherwise the active workspace stays.
pub proof fn law_window_moves_along_its_strip(
    s: LayoutModel,
    window: Option<WindowId>,
    idx: int,
    activate: ActivateWindow,
    out: OutputId,
    x: WorkspaceId,
    w: WindowId,
)
    requires
        s.whole(),
        s.single(),
        s.monitors.len() > 0,
        0 <= idx,
        s.move_to_workspace(window, idx, activate).mended().fits(),
        s.shows_on(s.acts.active, out, x),
        count_on(s.pool, x, w) > 0,
        window == Some(w) || {
            &&& window is None
            &&& !(s.moving is Some && s.moving.unwrap() is Moving)
            &&& out == s.monitors[s.focused].output.id
            &&& s.view_of(s.acts.active, out).unwrap().active == x
            &&& s.pool.get(x).unwrap().active == Some(w)
        },
    ensures
        ({
            let t = s.move_to_workspace(window, idx, activate).mended();
            let act = s.acts.active;
            let v = s.view_of(act, out).unwrap();
            let at = if idx < v.ids.len() {
                idx
            } else {
                v.ids.len() - 1
            };
            let y = v.ids[at];
            let focused = v.active == x && s.pool.get(x).unwrap().active == Some(w);
            &&& y == x ==> t == s
            &&& y != x ==> {
                &&& one_moved(s.pool, t.pool, w, x, y)
                &&& t.shows_on(act, out, y)
                &&& t.acts.active == act
                &&& t.focused == s.focused
                &&& t.view_of(act, out).unwrap().active == if activate is Yes || (activate is Smart
                    && focused) {
                    y
                } else {
                    v.active
                }
                &&& activate is Yes || (activate is Smart && focused)
                    ==> t.pool.get(y).unwrap().active == Some(w)
            }
        }),
{
    let act = s.acts.active;
    let v = s.view_of(act, out).unwrap();
    let n = v.ids.len() as int;
    let at = if idx < n {
        idx
    } else {
        n - 1
    };
    let y = v.ids[at];
    let r = s.move_to_workspace(window, idx, activate);
    let t = r.mended();
    lemma_single(s, x, w);
    lemma_view_is_ok(s, act, out);
    crate::wholeness::law_mending_is_idle(s);
    crate::mending::lemma_mended_leads(r);
    let place = if window is None {
        lemma_active_place(s, s.focused);
        s.active_place(s.focused)
    } else {
        lemma_window_place(s, out, w, x)
    };
    assert(s.command_place(window) == Some(place));
    let mon = place.0;
    let from = place.1;
    assert(v.ids[from] == x);
    assert(s.workspace_at(mon, from) == s.pool.get(x));
    lemma_meant(s, x, window, w);
    lemma_get(s.pool, x);
    lemma_active_place(s, mon);
    if y != x {
        let focused = v.active == x && s.pool.get(x).unwrap().active == Some(w);
        assert(focused ==> s.active_place(mon).1 == from);
        assert(window is Some && s.active_window_on(mon) == window ==> focused) by {
            if window is Some && s.active_window_on(mon) == window {
                let k = s.active_place(mon).1;
                let z = v.ids[k];
                let ws = s.pool.get(z).unwrap();
                crate::search::lemma_find_from(ws.tiles, crate::workspace::shows(ws.active.unwrap()), 0);
                lemma_counted(s.pool, z, w);
                assert(count_on(s.pool, z, w) > 0);
                assert(z == x);
            }
        }
        assert(window is Some && focused ==> s.active_window_on(mon) == window) by {
            if window is Some && focused {
                lemma_meant(s, x, None, w);
            }
        }
        let go = activate.decided(window is None || s.active_window_on(mon) == window);
        assert(go == (activate is Yes || (activate is Smart && focused)));
        let how = if go {
            ActivateWindow::Yes
        } else {
            ActivateWindow::No
        };
        let r1 = s.carry(mon, from, window, mon, at, how);
        assert(r == r1.tidy(mon));
        crate::moves::lemma_carry_leads(s, mon, from, window, mon, at, how);
        crate::moves::lemma_tidy_leads(r1, mon);
        lemma_carried(s, mon, from, window, mon, at, how, w);
        assert(v.ids.contains(y));
        assert(r1.shows_on(act, out, y));
        lemma_tidied(r1, mon, y);
        assert forall|z: WorkspaceId, u: WindowId| #[trigger] count_on(r.pool, z, u) == count_on(
            s.pool,
            z,
            u,
        ) - (if z == x && u == w {
            1int
        } else {
            0
        }) + (if z == y && u == w {
            1int
        } else {
            0
        }) by {
            assert(count_on(r.pool, z, u) == count_on(r1.pool, z, u));
        }
        assert(r.pool.busy(y));
        lemma_carried_mended(s, r, w, x, y);
        assert(s.monitor_pos(out) is Some);
        assert(t.view_of(act, out) is Some);
        assert(t.shows_on(act, out, y));
    }
}

/// Moving the focused window `w` up or down takes it from the active workspace, at place `at`, to
/// the one above or below it in the strip. At the end of the strip nothing happens. Only if the
/// focus is to go along does the active workspace change: to the one that the window went to.
pub proof fn law_window_moves_by_one(s: LayoutModel, focus: bool, at: int, w: WindowId, up: bool)
    requires
        s.whole(),
        s.monitors.len() > 0,
        (if up {
            s.move_up(focus)
        } else {
            s.move_down(focus)
        }).mended().fits(),
        match s.view_of(s.acts.active, s.monitors[s.focused].output.id) {
            Some(v) => 0 <= at < v.ids.len() && v.ids[at] == v.active,
            None => false,
        },
        ({
            let x = s.view_of(s.acts.active, s.monitors[s.focused].output.id).unwrap().active;
            s.pool.get(x).unwrap().active == Some(w) && count_on(s.pool, x, w) > 0
        }),
    ensures
        ({
            let t = (if up {
                s.move_up(focus)
            } else {
                s.move_down(focus)
            }).mended();
            let act = s.acts.active;
            let out = s.monitors[s.focused].output.id;
            let v = s.view_of(act, out).unwrap();
            let to = if up {
                at - 1
            } else {
                at + 1
            };
            if 0 <= to < v.ids.len() {
                &&& one_moved(s.pool, t.pool, w, v.active, v.ids[to])
                &&& t.acts.active == act
                &&& t.focused == s.focused
                &&& t.shows_on(act, out, v.ids[to])
                &&& t.view_of(act, out).unwrap().active == if focus {
                    v.ids[to]
                } else {
                    v.active
                }
                &&& focus ==> t.pool.get(v.ids[to]).unwrap().active == Some(w)
            } else {
                t == s
            }
        }),
{
    let act = s.acts.active;
    let mon = s.focused;
    let out = s.monitors[mon].output.id;
    let v = s.view_of(act, out).unwrap();
    let x = v.active;
    let r = if up {
        s.move_up(focus)
    } else {
        s.move_down(focus)
    };
    let to = if up {
        at - 1
    } else {
        at + 1
    };
    let how = if focus {
        ActivateWindow::Yes
    } else {
        ActivateWindow::Smart
    };
    lemma_view_is_ok(s, act, out);
    crate::turning::lemma_active_at(s, at);
    crate::wholeness::law_mending_is_idle(s);
    crate::mending::lemma_mended_leads(r);
    if 0 <= to < v.ids.len() {
        assert(s.workspace_at(mon, at) == s.pool.get(x));
        lemma_meant(s, x, None, w);
        lemma_get(s.pool, x);
        assert(r == s.carry(mon, at, None, mon, to, how));
        lemma_carried(s, mon, at, None, mon, to, how, w);
        lemma_carried_mended(s, r, w, x, v.ids[to]);
        assert(v.ids.contains(v.ids[to]));
        assert(s.monitor_pos(out) is Some);
        assert(r.mended().view_of(act, out) is Some);
    }
}

/// Moving window `w`, by name or as the focused one, to an output takes it from its workspace `x` to
/// the one at place `idx` of the strip there, or to the active one there if no place is given.
/// Nothing happens if the strip is shorter. Nothing else moves. The focus goes along, to that output
/// and that workspace, if that was asked for, or left open and the window had it.
pub proof fn law_window_moves_to_an_output(
    s: LayoutModel,
    window: Option<WindowId>,
    mon2: int,
    idx: Option<int>,
    activate: ActivateWindow,
    out: OutputId,
    x: WorkspaceId,
    w: WindowId,
)
    requires
        s.whole(),
        s.single(),
        0 <= mon2 < s.monitors.len(),
        idx is Some ==> 0 <= idx.unwrap(),
        s.move_to_output(window, mon2, idx, activate).mended().fits(),
        s.shows_on(s.acts.active, out, x),
        count_on(s.pool, x, w) > 0,
        window == Some(w) || {
            &&& window is None
            &&& !(s.moving is Some && s.moving.unwrap() is Moving)
            &&& out == s.monitors[s.focused].output.id
            &&& s.view_of(s.acts.active, out).unwrap().active == x
            &&& s.pool.get(x).unwrap().active == Some(w)
        },
    ensures
        ({
            let t = s.move_to_output(window, mon2, idx, activate).mended();
            let act = s.acts.active;
            let v = s.view_of(act, out).unwrap();
            let home = s.monitors[mon2].output.id;
            let u = s.view_of(act, home).unwrap();
            let y = match idx {
                Some(i) => u.ids[i],
                None => u.active,
            };
            let focused = out == s.monitors[s.focused].output.id && v.active == x && s.pool.get(
                x,
            ).unwrap().active == Some(w);
            let go = activate is Yes || (activate is Smart && focused);
            if (idx is Some && idx.unwrap() >= u.ids.len()) || y == x {
                t == s
            } else {
                &&& one_moved(s.pool, t.pool, w, x, y)
                &&& t.acts.active == act
                &&& t.shows_on(act, home, y)
                &&& t.focused == if go {
                    mon2
                } else {
                    s.focused
                }
                &&& t.view_of(act, home).unwrap().active == if go {
                    y
                } else {
                    u.active
                }
                &&& go ==> t.pool.get(y).unwrap().active == Some(w)
            }
        }),
{
    let act = s.acts.active;
    let v = s.view_of(act, out).unwrap();
    let home = s.monitors[mon2].output.id;
    let r = s.move_to_output(window, mon2, idx, activate);
    let t = r.mended();
    lemma_single(s, x, w);
    lemma_view_is_ok(s, act, out);
    lemma_view_is_ok(s, act, home);
    crate::wholeness::law_mending_is_idle(s);
    crate::mending::lemma_mended_leads(r);
    let place = if window is None {
        lemma_active_place(s, s.focused);
        s.active_place(s.focused)
    } else {
        lemma_window_place(s, out, w, x)
    };
    assert(s.command_place(window) == Some(place));
    let mon = place.0;
    let from = place.1;
    lemma_active_place(s, mon);
    lemma_active_place(s, mon2);
    let u = s.active_view(home).unwrap();
    let to = match idx {
        Some(i) => i,
        None => s.active_place(mon2).1,
    };
    assert(v.ids[from] == x);
    assert(s.workspace_at(mon, from) == s.pool.get(x));
    lemma_meant(s, x, window, w);
    lemma_get(s.pool, x);
    assert(mon != s.focused ==> out != s.monitors[s.focused].output.id) by {
        if mon < s.focused {
            assert(crate::cores::apart(s.monitors[mon].output, s.monitors[s.focused].output));
        } else if s.focused < mon {
            assert(crate::cores::apart(s.monitors[s.focused].output, s.monitors[mon].output));
        }
    }
    assert(mon != mon2 ==> out != home) by {
        if mon < mon2 {
            assert(crate::cores::apart(s.monitors[mon].output, s.monitors[mon2].output));
        } else if mon2 < mon {
            assert(crate::cores::apart(s.monitors[mon2].output, s.monitors[mon].output));
        }
    }
    if 0 <= to < u.ids.len() {
        let y = u.ids[to];
        assert(u.ids.contains(y));
        assert(s.shows_on(act, home, y));
        if y == x {
            if mon != mon2 {
                assert(!s.shows_on(act, home, x));
            }
            assert(to == from);
        } else {
            let focused = out == s.monitors[s.focused].output.id && v.active == x && s.pool.get(
                x,
            ).unwrap().active == Some(w);
            assert(window is Some && mon == s.focused && s.active_window_on(mon) == window
                ==> focused) by {
                if window is Some && mon == s.focused && s.active_window_on(mon) == window {
                    let k = s.active_place(mon).1;
                    let z = v.ids[k];
                    let ws = s.pool.get(z).unwrap();
                    crate::search::lemma_find_from(
                        ws.tiles,
                        crate::workspace::shows(ws.active.unwrap()),
                        0,
                    );
                    lemma_counted(s.pool, z, w);
                    assert(count_on(s.pool, z, w) > 0);
                    assert(z == x);
                }
            }
            assert(window is Some && focused ==> s.active_window_on(mon) == window) by {
                if window is Some && focused {
                    assert(s.active_place(mon).1 == from);
                    lemma_meant(s, x, None, w);
                }
            }
            let go = activate.decided(
                window is None || (mon == s.focused && s.active_window_on(mon) == window),
            );
            assert(go == (activate is Yes || (activate is Smart && focused)));
            let how = if go {
                ActivateWindow::Yes
            } else {
                ActivateWindow::No
            };
            let r0 = s.carry(mon, from, window, mon2, to, how);
            let r1 = LayoutModel {
                focused: if go {
                    mon2
                } else {
                    r0.focused
                },
                ..r0
            };
            assert(r == r1.tidy(mon));
            crate::moves::lemma_carry_leads(s, mon, from, window, mon2, to, how);
            crate::moves::lemma_tidy_leads(r1, mon);
            lemma_carried(s, mon, from, window, mon2, to, how, w);
            crate::belonging::lemma_same_once(r0, r1);
            assert(r1.coherent());
            assert(r1.shows_on(act, home, y));
            lemma_tidied(r1, mon, y);
            if mon != mon2 {
                assert(r.view_of(act, home) == r1.view_of(act, home));
            }
            assert forall|z: WorkspaceId, q: WindowId| #[trigger] count_on(r.pool, z, q) == count_on(
                s.pool,
                z,
                q,
            ) - (if z == x && q == w {
                1int
            } else {
                0
            }) + (if z == y && q == w {
                1int
            } else {
                0
            }) by {
                assert(count_on(r.pool, z, q) == count_on(r1.pool, z, q));
            }
            assert(r.pool.busy(y));
            lemma_carried_mended(s, r, w, x, y);
            assert(s.monitor_pos(home) is Some);
            assert(t.view_of(act, home) is Some);
            assert(t.shows_on(act, home, y));
        }
    }
}

impl LayoutModel {
    /// Whether the monitor of an output is in the middle of a swipe from workspace to workspace.
    pub open spec fn is_swiped(self, out: OutputId) -> bool {
        exists|i: int|
            0 <= i < self.monitors.len() && (#[trigger] self.monitors[i]).output.id == out
                && self.monitors[i].workspace_switch is Some
                && self.monitors[i].workspace_switch.unwrap() is Gesture
    }
}

/// Window `w`, when it is activated where the active activity shows it, gets the focus: its output
/// becomes the focused one, its workspace the active one there, and it is the active window of
/// that workspace. No window moves. In the middle of a swipe there, the view may
/// stay as it is.
pub proof fn law_activated_window_gets_the_focus(s: LayoutModel, out: OutputId, x: WorkspaceId, w: WindowId)
    requires
        s.whole(),
        s.single(),
        s.shows_on(s.acts.active, out, x),
        count_on(s.pool, x, w) > 0,
        s.activate_window(w).mended().fits(),
    ensures
        ({
            let t = s.activate_window(w).mended();
            let act = s.acts.active;
            &&& t.acts.active == act
            &&& t.monitors[t.focused].output.id == out
            &&& t.pool.get(x).unwrap().active == Some(w)
            &&& forall|z: WorkspaceId, u: WindowId| #[trigger]
                count_on(t.pool, z, u) == count_on(s.pool, z, u)
            &&& forall|z: WorkspaceId| #[trigger]
                s.pool.busy(z) && z != x ==> t.pool.get(z).unwrap().active == s.pool.get(
                    z,
                ).unwrap().active
            &&& forall|o: OutputId|
                s.view_of(act, o) is Some ==> match #[trigger] t.view_of(act, o) {
                    Some(u) => {
                        let v = s.view_of(act, o).unwrap();
                        &&& u.ids.filter(|z: WorkspaceId| v.ids.contains(z)) == v.ids
                        &&& u.active == v.active || (o == out && u.active == x)
                        &&& o == out && !s.is_swiped(out) ==> u.active == x
                    },
                    None => false,
                }
        }),
{
    let act = s.acts.active;
    let r = s.activate_window(w);
    let t = r.mended();
    lemma_single(s, x, w);
    let (mon, idx) = lemma_window_place(s, out, w, x);
    crate::mending::lemma_mended_leads(r);
    crate::carrying::law_activating_keeps_coherence(s, w);
    crate::carrying::law_activating_focuses(s, w);
    let v = s.view_of(act, out).unwrap();
    let s1 = LayoutModel { pool: s.pool.activate_window(x, w), focused: mon, ..s };
    crate::windows::lemma_focus_on_leads(s1, mon, idx);
    crate::transfer::lemma_view_after_set(s1.acts, act, out, v.activate(idx));
    assert forall|a: ActivityId, o: OutputId| a != act || o != out implies #[trigger] r.view_of(a, o)
        == s.view_of(a, o) by {
        crate::transfer::lemma_view_after_set_other(s1.acts, act, out, v.activate(idx), a, o);
    }
    crate::belonging::lemma_same_once(s, s1);
    assert forall|a: ActivityId, o: OutputId, z: WorkspaceId| #[trigger] r.shows_on(
        a,
        o,
        z,
    ) implies s.shows_on(a, o, z) by {
        if a != act || o != out {
            assert(r.view_of(a, o) == s.view_of(a, o));
        }
    }
    crate::belonging::lemma_shrunk_once(s, r);
    lemma_mended_work(r);
    lemma_mended_places(r);
    lemma_counted(s.pool, x, w);
    assert(r.pool.busy(x));
    assert forall|z: WorkspaceId, u: WindowId| #[trigger] count_on(t.pool, z, u) == count_on(
        s.pool,
        z,
        u,
    ) by {
        assert(count_on(t.pool, z, u) == count_on(r.pool, z, u));
    }
    assert forall|z: WorkspaceId| #[trigger] s.pool.busy(z) && z != x implies t.pool.get(
        z,
    ).unwrap().active == s.pool.get(z).unwrap().active by {
        assert(r.pool.get(z) == s.pool.get(z));
        assert(r.pool.busy(z));
    }
    assert forall|o: OutputId| s.view_of(act, o) is Some implies match #[trigger] t.view_of(act, o) {
        Some(u) => {
            let v = s.view_of(act, o).unwrap();
            &&& u.ids.filter(|z: WorkspaceId| v.ids.contains(z)) == v.ids
            &&& u.active == v.active || (o == out && u.active == x)
            &&& o == out && !s.is_swiped(out) ==> u.active == x
        },
        None => false,
    } by {
        assert(s.monitor_pos(o) is Some);
        crate::wholeness::lemma_same_monitor(s, r, o);
        assert forall|p: OutputId, z: WorkspaceId| p != o && #[trigger] r.shows_on(
            act,
            p,
            z,
        ) implies !r.view_of(act, o).unwrap().ids.contains(z) by {
            assert(!r.shows_on(act, o, z));
        }
        assert(r.view_of(act, o) is Some);
        assert(r.view_of(act, o).unwrap().ids == s.view_of(act, o).unwrap().ids);
        lemma_mended_view(r, act, o);
    }
}

/// Taking a window off a workspace and opening another workspace can be done in either order.
pub proof fn lemma_mint_then_remove(s: LayoutModel, mon: int, i: int, x: WorkspaceId, w: WindowId)
    requires
        s.pool.wf(),
        s.pool.has(x),
    ensures
        (LayoutModel { pool: s.pool.remove_window(x, w), ..s }).add_workspace_at(mon, i) == ({
            let b = s.add_workspace_at(mon, i);
            LayoutModel { pool: b.pool.remove_window(x, w), ..b }
        }),
{
    let out = s.monitors[mon].output.id;
    let act = s.acts.active;
    let p = s.pool;
    let q = p.remove_window(x, w);
    lemma_get(p, x);
    let k = p.pos(x).unwrap();
    let a = q.mint(out, act);
    let c = p.mint(out, act);
    assert(c.items[k] == p.items[k]);
    crate::search::lemma_find_from(c.items, crate::pool::has_id(x), 0);
    crate::search::lemma_find_from(p.items, crate::pool::has_id(x), 0);
    assert(c.pos(x) == Some(k)) by {
        assert(crate::pool::has_id(x)(c.items[k]));
        let j = c.pos(x).unwrap();
        if j < k {
            assert(c.items[j] == p.items[j]);
            assert(crate::pool::has_id(x)(c.items[j]));
            assert(!crate::pool::has_id(x)(p.items[j]));
        }
    }
    assert(a.items =~= c.remove_window(x, w).items);
}

/// Moving the focused window `w` to a new workspace, above the active one at place `at` or below it,
/// takes it to a workspace that was not there before and stands right above or right below. Where
/// that is the empty workspace that ends the strip, it goes there. No other window moves. Only if the
/// focus is to go along does the active workspace change: to the one that the window went to.
pub proof fn law_window_moves_to_a_new_workspace(
    s: LayoutModel,
    focus: bool,
    below: int,
    at: int,
    w: WindowId,
) -> (y: WorkspaceId)
    requires
        s.whole(),
        s.monitors.len() > 0,
        below == 0 || below == 1,
        s.move_new(focus, below).mended().fits(),
        s.view_len(s.focused) <= usize::MAX,
        match s.view_of(s.acts.active, s.monitors[s.focused].output.id) {
            Some(v) => 0 <= at < v.ids.len() && v.ids[at] == v.active,
            None => false,
        },
        ({
            let x = s.view_of(s.acts.active, s.monitors[s.focused].output.id).unwrap().active;
            s.pool.get(x).unwrap().active == Some(w) && count_on(s.pool, x, w) > 0
        }),
    ensures
        ({
            let t = s.move_new(focus, below).mended();
            let act = s.acts.active;
            let out = s.monitors[s.focused].output.id;
            let v = s.view_of(act, out).unwrap();
            &&& one_moved(s.pool, t.pool, w, v.active, y)
            &&& t.acts.active == act
            &&& t.focused == s.focused
            &&& at + below < v.ids.len()
            &&& match t.view_of(act, out) {
                Some(u) => {
                    &&& u.ids.contains(y)
                    &&& u.active == if focus {
                        y
                    } else {
                        v.active
                    }
                    &&& if at + below + 1 < v.ids.len() {
                        &&& !s.pool.has(y)
                        &&& u.ids.filter(|z: WorkspaceId| z == y || v.ids.contains(z))
                            == v.ids.insert(at + below, y)
                    } else {
                        y == v.ids.last()
                    }
                },
                None => false,
            }
            &&& focus ==> t.pool.get(y).unwrap().active == Some(w)
        }),
{
    let act = s.acts.active;
    let mon = s.focused;
    let m = s.monitors[mon];
    let out = m.output.id;
    let v = s.view_of(act, out).unwrap();
    let n = v.ids.len() as int;
    let x = v.active;
    let r = s.move_new(focus, below);
    let t = r.mended();
    let how = if focus {
        ActivateWindow::Yes
    } else {
        ActivateWindow::Smart
    };
    lemma_view_is_ok(s, act, out);
    crate::turning::lemma_active_at(s, at);
    crate::mending::lemma_mended_leads(r);
    lemma_counted(s.pool, x, w);
    crate::coherence::lemma_act(s.acts, act);
    let i = s.acts.pos(act).unwrap();
    assert(s.ends_empty(s.acts.list[i].id, mon));
    assert(at < n - 1);
    assert(m.empty_workspace_above_first ==> at > 0);
    assert(s.workspace_at(mon, at) == s.pool.get(x));
    lemma_meant(s, x, None, w);
    lemma_get(s.pool, x);
    assert(s.monitor_pos(out) is Some);
    let k = at + below;
    let tile = s.pool.get(x).unwrap().active_tile().unwrap();
    if k + 1 < n {
        let b = s.add_workspace_at(mon, k);
        let y = s.pool.next_id();
        lemma_mint_then_remove(s, mon, k, x, w);
        let from = if below == 0 {
            at + 1
        } else {
            at
        };
        crate::bookends::lemma_mint_into_leads(s, mon, act, k);
        crate::moves::lemma_carry_leads(b, mon, from, None, mon, k, how);
        let vb = v.insert(k, y);
        assert(crate::moves::insert_target(m.empty_workspace_above_first, k, n)
            == crate::moves::BookendResolution::InsertAt(k as usize));
        crate::transfer::lemma_view_after_set(s.acts, act, out, vb);
        assert(b.active_view(out) == Some(vb));
        crate::keeping_views::lemma_mint(s, out, act);
        assert(b.pool.get(x) == s.pool.get(x));
        assert(vb.ids[from] == x);
        assert(b.workspace_at(mon, from) == s.pool.get(x));
        assert(r == b.carry(mon, from, None, mon, k, how));
        crate::inserting::lemma_mint_whole(s, mon, k);
        assert(vb.ids[k] == y);
        lemma_carried(b, mon, from, None, mon, k, how, w);
        lemma_carried_mended(b, r, w, x, y);
        assert(b.monitor_pos(out) is Some) by {
            crate::wholeness::lemma_same_monitor(s, b, out);
        }
        assert forall|z: WorkspaceId, u: WindowId| #[trigger] count_on(b.pool, z, u) == count_on(
            s.pool,
            z,
            u,
        ) by {
            if z == y {
                assert(b.pool.get(y).unwrap().tiles.len() == 0);
                assert(!s.pool.has(y));
            }
        }
        assert forall|z: WorkspaceId, u: WindowId| #[trigger] count_on(t.pool, z, u) == count_on(
            s.pool,
            z,
            u,
        ) - (if z == x && u == w {
            1int
        } else {
            0
        }) + (if z == y && u == w {
            1int
        } else {
            0
        }) by {
            assert(count_on(b.pool, z, u) == count_on(s.pool, z, u));
        }
        let u = t.view_of(act, out).unwrap();
        assert(b.monitors[mon].empty_workspace_above_first == s.monitors[mon].empty_workspace_above_first);
        assert(r.view_of(act, out).unwrap().ids == vb.ids);
        assert((|z: WorkspaceId| z == y || v.ids.contains(z)) =~= (|z: WorkspaceId|
            vb.ids.contains(z))) by {
            assert forall|z: WorkspaceId| #[trigger] vb.ids.contains(z) == (z == y
                || v.ids.contains(z)) by {
                crate::disconnecting::lemma_insert_contains(v.ids, k, y, z);
            }
        }
        assert(vb.ids.contains(y));
        y
    } else {
        let y = v.ids[n - 1];
        assert(r == s.carry(mon, at, None, mon, n - 1, how));
        crate::moves::lemma_carry_leads(s, mon, at, None, mon, n - 1, how);
        lemma_carried(s, mon, at, None, mon, n - 1, how, w);
        lemma_carried_mended(s, r, w, x, y);
        assert(v.ids.contains(y));
        y
    }
}

/// Moving window `w`, by name or as the focused one, to workspace `id` that the active activity does
/// not show takes it there from its workspace `x`. No other window moves, and the active activity
/// still does not show `id`. The focused output stays.
pub proof fn law_window_moves_out_of_sight(
    s: LayoutModel,
    window: Option<WindowId>,
    id: WorkspaceId,
    activate: ActivateWindow,
    out: OutputId,
    x: WorkspaceId,
    w: WindowId,
)
    requires
        s.whole(),
        s.single(),
        s.shows_on(s.acts.active, out, x),
        count_on(s.pool, x, w) > 0,
        window == Some(w) || {
            &&& window is None
            &&& out == s.monitors[s.focused].output.id
            &&& s.view_of(s.acts.active, out).unwrap().active == x
            &&& s.pool.get(x).unwrap().active == Some(w)
        },
        s.pool.has(id),
        forall|o: OutputId| !(#[trigger] s.shows_on(s.acts.active, o, id)),
        match s.pool.get(id).unwrap().output_id {
            Some(o) => s.monitor_pos(o) is Some,
            None => false,
        },
        s.move_to_pool(window, id, activate).mended().fits(),
    ensures
        s.pool_move(window, id.0) == Ok::<MoveWindowToPoolOutcome, MoveWindowToPoolError>(
            MoveWindowToPoolOutcome::MovedDormant { ws_id: id },
        ),
        ({
            let t = s.move_to_pool(window, id, activate).mended();
            &&& one_moved(s.pool, t.pool, w, x, id)
            &&& t.acts.active == s.acts.active
            &&& t.focused == s.focused
            &&& forall|o: OutputId| !(#[trigger] t.shows_on(s.acts.active, o, id))
            &&& !(activate is No) ==> t.pool.get(id).unwrap().active == Some(w)
        }),
{
    let act = s.acts.active;
    let r = s.move_to_pool(window, id, activate);
    let t = r.mended();
    assert(s.monitor_pos(out) is Some);
    crate::search::lemma_find_from(s.monitors, crate::layout::on_output(out), 0);
    lemma_single(s, x, w);
    crate::finding::law_workspace_is_found_on_its_monitor(s, id, 0);
    let place = if window is None {
        lemma_active_place(s, s.focused);
        s.active_place(s.focused)
    } else {
        lemma_window_place(s, out, w, x)
    };
    assert(s.pool_source(window) == Some(place));
    let mon = place.0;
    let from = place.1;
    let v = s.view_of(act, out).unwrap();
    assert(s.workspace_at(mon, from) == s.pool.get(x));
    lemma_meant(s, x, window, w);
    lemma_get(s.pool, x);
    crate::carrying::lemma_workspace_at(s, mon, from);
    assert(id != x) by {
        assert(!s.shows_on(act, out, id));
    }
    crate::lasting::law_moving_out_of_sight_keeps_whole(s, window, id, activate);
    crate::mending::lemma_mended_leads(r);
    let ws = s.pool.get(x).unwrap();
    let tile = ws.tile(window).unwrap();
    let how = if activate is No {
        ActivateWindow::No
    } else {
        ActivateWindow::Yes
    };
    let q = s.pool.remove_window(x, w);
    let s1 = LayoutModel { pool: q, ..s };
    let s2 = s1.add_to(id, alone(tile), how, None);
    let s3 = s2.normalize();
    assert(r == s3.tidy(mon));
    crate::bookends::lemma_normalize_leads(s2);
    crate::moves::lemma_tidy_leads(s3, mon);
    crate::placing::lemma_removed_wf(s.pool, x, w);
    crate::coherence::lemma_get_put(s.pool, x, ws.remove_window(w));
    crate::coherence::lemma_alike_coherent(s, q);
    assert(s1.pool.get(id) == s.pool.get(id));
    crate::aiming::lemma_add_to_places(s1, id, alone(tile), how, None);
    lemma_remove_counts(s.pool, x, w);
    crate::keeping::law_normalize_adds_only(s2);
    crate::parking::lemma_normalize_mons_calm(
        s2,
        s2.monitors.len() as int,
        s.monitors[mon].output,
    );
    lemma_work_places(s2.pool, s3.pool, s.monitors[mon].output);
    crate::belonging::lemma_same_once(s, s1);
    crate::belonging::lemma_same_once(s1, s2);
    crate::belonging::lemma_normalize_mons_once(s2, s2.monitors.len() as int);
    lemma_tidied(s3, mon, id);
    assert forall|z: WorkspaceId, u: WindowId| #[trigger] count_on(r.pool, z, u) == count_on(
        s.pool,
        z,
        u,
    ) - (if z == x && u == w {
        1int
    } else {
        0
    }) + (if z == id && u == w {
        1int
    } else {
        0
    }) by {
        assert(count_on(r.pool, z, u) == count_on(s3.pool, z, u));
        assert(count_on(s3.pool, z, u) == count_on(s2.pool, z, u));
        assert(count_on(s2.pool, z, u) == count_on(q, z, u) + if z == id && u == w {
            1int
        } else {
            0
        });
    }
    assert(s2.pool.busy(id));
    assert(s3.pool.busy(id));
    assert(r.pool.busy(id));
    lemma_carried_mended(s, r, w, x, id);
    lemma_mended_work(r);
    assert forall|o: OutputId| !(#[trigger] t.shows_on(act, o, id)) by {
        if t.shows_on(act, o, id) {
            lemma_view_is_ok(t, act, o);
            assert(t.pool.member(id, act));
            assert(r.pool.member(id, act));
            assert(s3.pool.member(id, act));
            assert(s2.pool.has(id));
            assert(s2.pool.member(id, act));
            lemma_add_to_members(s1, id, alone(tile), how, act);
            assert(s.pool.member(id, act));
            let p = choose|p: OutputId| s.shows_on(act, p, id);
            assert(!s.shows_on(act, p, id));
        }
    }
    if !(activate is No) {
        lemma_add_to_active(s1, id, alone(tile));
    }
}

/// Putting a window straight on a workspace leaves the activities that it belongs to.
pub proof fn lemma_add_to_members(
    s: LayoutModel,
    id: WorkspaceId,
    tile: crate::workspace::Tile,
    how: ActivateWindow,
    a: ActivityId,
)
    requires
        s.pool.has(id),
    ensures
        s.add_to(id, tile, how, None).pool.member(id, a) == s.pool.member(id, a),
{
    let w = s.pool.get(id).unwrap();
    let focus = takes_focus(w, how, None);
    let u = w.add_tile(tile, focus);
    lemma_get(s.pool, id);
    crate::coherence::lemma_get_put(s.pool, id, u);
    if let Some(out) = s.holding_output(id) {
        let q = s.pool.add_tile(id, tile, focus);
        let x = crate::workspace::WorkspaceModel { output_id: Some(out), ..u };
        lemma_get(q, id);
        crate::coherence::lemma_get_put(q, id, x);
    }
}

/// A window that is put straight on a workspace with the focus is the active one there.
pub proof fn lemma_add_to_active(s: LayoutModel, id: WorkspaceId, tile: crate::workspace::Tile)
    requires
        s.pool.has(id),
    ensures
        s.add_to(id, tile, ActivateWindow::Yes, None).pool.get(id).unwrap().active == Some(
            tile.window.id,
        ),
{
    let w = s.pool.get(id).unwrap();
    let u = w.add_tile(tile, true);
    lemma_get(s.pool, id);
    crate::coherence::lemma_get_put(s.pool, id, u);
    if let Some(out) = s.holding_output(id) {
        let q = s.pool.add_tile(id, tile, true);
        let x = crate::workspace::WorkspaceModel { output_id: Some(out), ..u };
        lemma_get(q, id);
        crate::coherence::lemma_get_put(q, id, x);
    }
}

} // verus!
