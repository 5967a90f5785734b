//! A column that is moved takes its windows along, and no others.

use vstd::prelude::*;

use crate::aiming::{lemma_active_place, lemma_settled_view};
use crate::coherence::{lemma_get, lemma_get_put, lemma_view_is_ok};
use crate::ids::{ActivityId, OutputId, WindowId, WorkspaceId};
use crate::layout::LayoutModel;
use crate::persisting::lemma_mended_work;
use crate::transfer::{lemma_view_after_set, lemma_view_after_set_other};
use crate::workspace::{Tile, WorkspaceModel};

verus! {

/// The tiles of a strip of columns that stand in the column led by `leader`.
pub open spec fn of_column(leader: WindowId) -> spec_fn(Tile) -> bool {
    |t: Tile| t.column == leader && !t.floating
}

/// The tiles that do not stand in that column.
pub open spec fn off_column(leader: WindowId) -> spec_fn(Tile) -> bool {
    |t: Tile| t.column != leader || t.floating
}

/// In `q` the tiles of the column led by `leader` are behind those of workspace `y` instead of on
/// workspace `x`. Every other workspace in use has the tiles that it has in `p`.
pub open spec fn hauled(
    s: LayoutModel,
    t: LayoutModel,
    x: WorkspaceId,
    y: WorkspaceId,
    leader: WindowId,
) -> bool {
    let w = s.pool.get(x).unwrap();
    let d = s.pool.get(y).unwrap();
    &&& t.pool.has(y)
    &&& t.pool.get(y).unwrap().tiles == d.tiles + w.tiles.filter(of_column(leader))
    &&& t.pool.get(y).unwrap().name == d.name
    &&& match t.pool.get(x) {
        Some(u) => u.tiles == w.tiles.filter(off_column(leader)) && u.name == w.name,
        None => w.tiles.filter(off_column(leader)).len() == 0 && w.name is None,
    }
    &&& forall|z: WorkspaceId|
        z != x && z != y && #[trigger] s.pool.busy(z) ==> t.pool.has(z) && t.pool.get(
            z,
        ).unwrap().tiles == s.pool.get(z).unwrap().tiles && t.pool.get(z).unwrap().name
            == s.pool.get(z).unwrap().name
}

/// What carrying a column from one workspace to another does.
pub proof fn lemma_carried_column(
    s: LayoutModel,
    mon: int,
    from: int,
    mon2: int,
    to: int,
    activate: bool,
    tile: Tile,
)
    requires
        s.coherent(),
        s.shown_once(),
        0 <= mon < s.monitors.len(),
        0 <= mon2 < s.monitors.len(),
        match s.workspace_at(mon, from) {
            Some(w) => w.active_tile() == Some(tile) && !tile.floating,
            None => false,
        },
        0 <= to < s.view_len(mon2),
        s.active_view(s.monitors[mon2].output.id).unwrap().ids[to] != s.workspace_at(
            mon,
            from,
        ).unwrap().id,
    ensures
        ({
            let r = s.carry_column(mon, from, mon2, to, activate);
            let act = s.acts.active;
            let out = s.monitors[mon2].output.id;
            let w = s.workspace_at(mon, from).unwrap();
            let v = s.active_view(out).unwrap();
            let y = v.ids[to];
            &&& r.coherent()
            &&& r.shown_once()
            &&& s.leads_to(r)
            &&& hauled(s, r, w.id, y, tile.column)
            &&& r.pool.busy(y)
            &&& r.pool.has(w.id)
            &&& forall|z: WorkspaceId| #[trigger]
                r.pool.busy(z) ==> z == y || s.pool.busy(z)
            &&& activate ==> r.pool.get(y).unwrap().active == w.active
            &&& match r.view_of(act, out) {
                Some(u) => u.ids == v.ids && u.active == if activate {
                    y
                } else {
                    v.active
                },
                None => false,
            }
            &&& forall|a: ActivityId, o: OutputId|
                a != act || o != out ==> #[trigger] r.view_of(a, o) == s.view_of(a, o)
        }),
{
    let w = s.workspace_at(mon, from).unwrap();
    let act = s.acts.active;
    let out = s.monitors[mon2].output.id;
    let v = s.active_view(out).unwrap();
    let x = w.id;
    let y = v.ids[to];
    let c = tile.column;
    let r = s.carry_column(mon, from, mon2, to, activate);
    crate::carrying::lemma_workspace_at(s, mon, from);
    crate::carrying::lemma_carry_column(s, mon, from, mon2, to, activate);
    lemma_get(s.pool, x);
    lemma_view_is_ok(s, act, out);
    assert(v.ids.contains(y));
    assert(s.pool.member(y, act));
    let column = w.active_column().unwrap();
    assert(crate::workspace::in_column(c) =~= of_column(c));
    assert(crate::workspace::not_in_column(c) =~= off_column(c));
    let left = w.take_active_column();
    let s1 = LayoutModel { pool: s.pool.take_active_column(x), ..s };
    lemma_get_put(s.pool, x, left);
    let d = s.pool.get(y).unwrap();
    assert(s1.pool.get(y) == Some(d));
    let d1 = d.add_column(column, w.active, activate);
    let s2 = LayoutModel { pool: s1.pool.add_column(y, column, w.active, activate), ..s1 };
    lemma_get(s1.pool, y);
    lemma_get_put(s1.pool, y, d1);
    let d2 = WorkspaceModel { output_id: Some(out), ..d1 };
    let s3 = s2.claim(mon2, y);
    lemma_get(s2.pool, y);
    lemma_get_put(s2.pool, y, d2);
    assert(s3.pool == s2.pool.put(y, d2));
    assert(r.pool == s3.pool);
    assert(column.len() > 0) by {
        let k = w.window_pos(w.active.unwrap()).unwrap();
        crate::search::lemma_find_from(w.tiles, crate::workspace::shows(w.active.unwrap()), 0);
        assert(w.tiles[k] == tile);
        assert(of_column(c)(w.tiles[k]));
        w.tiles.lemma_filter_contains(of_column(c), k);
        assert(column.contains(tile));
    }
    assert(r.pool.get(y) == Some(d2));
    assert(r.pool.get(x) == Some(left));
    crate::belonging::lemma_same_once(s, s3);
    assert(s3.active_view(out) == Some(v));
    if activate {
        lemma_view_after_set(s3.acts, act, out, v.activate(to));
        crate::windows::lemma_focus_on_leads(s3, mon2, to);
    }
    assert forall|a: ActivityId, o: OutputId| a != act || o != out implies #[trigger] r.view_of(a, o)
        == s.view_of(a, o) by {
        lemma_view_after_set_other(s3.acts, act, out, v.activate(to), a, o);
    }
    assert forall|a: ActivityId, o: OutputId, z: WorkspaceId| #[trigger] r.shows_on(
        a,
        o,
        z,
    ) implies s.shows_on(a, o, z) by {
        if a != act || o != out {
            assert(r.view_of(a, o) == s.view_of(a, o));
        }
    }
    crate::belonging::lemma_shrunk_once(s, r);
    assert forall|z: WorkspaceId| #[trigger] r.pool.busy(z) implies z == y || s.pool.busy(z) by {
        if z == x {
            assert(left.name == w.name);
            if w.tiles.len() == 0 {
                assert(w.tiles.filter(off_column(c)).len() <= w.tiles.len()) by {
                    w.tiles.lemma_filter_len(off_column(c));
                }
            }
        } else if z != y {
            assert(s1.pool.get(z) == s.pool.get(z));
            assert(s2.pool.get(z) == s1.pool.get(z));
        }
    }
    assert forall|z: WorkspaceId|
        z != x && z != y && #[trigger] s.pool.busy(z) implies r.pool.has(z) && r.pool.get(
        z,
    ).unwrap().tiles == s.pool.get(z).unwrap().tiles && r.pool.get(z).unwrap().name == s.pool.get(
        z,
    ).unwrap().name by {
        assert(s1.pool.get(z) == s.pool.get(z));
        assert(s2.pool.get(z) == s1.pool.get(z));
    }
}

/// What is left of a carried column when the operation is over.
pub proof fn lemma_hauled_settled(
    s: LayoutModel,
    r: LayoutModel,
    x: WorkspaceId,
    y: WorkspaceId,
    leader: WindowId,
)
    requires
        s.whole(),
        s.monitors.len() > 0,
        r.coherent(),
        r.shown_once(),
        r.monitors.len() == s.monitors.len(),
        forall|i: int|
            0 <= i < s.monitors.len() ==> (#[trigger] s.monitors[i]).output == r.monitors[i].output,
        hauled(s, r, x, y, leader),
        r.pool.busy(y),
        r.pool.has(x),
        x != y,
        forall|z: WorkspaceId| #[trigger] r.pool.busy(z) ==> z == y || s.pool.busy(z),
        r.normalize().mended().fits(),
    ensures
        hauled(s, r.normalize().mended(), x, y, leader),
        forall|z: WorkspaceId| #[trigger]
            r.normalize().mended().pool.busy(z) ==> z == y || s.pool.busy(z),
        r.normalize().mended().pool.get(y).unwrap().active == r.pool.get(y).unwrap().active,
        r.normalize().mended().acts.active == r.acts.active,
        0 <= r.focused < s.monitors.len() ==> r.normalize().mended().focused == r.focused,
        forall|a: ActivityId, o: OutputId|
            r.view_of(a, o) is Some && s.monitor_pos(o) is Some ==> match #[trigger] r.normalize().mended().view_of(
                a,
                o,
            ) {
                Some(u) => {
                    let v = r.view_of(a, o).unwrap();
                    &&& u.active == v.active
                    &&& u.ids.filter(|z: WorkspaceId| v.ids.contains(z)) == v.ids
                    &&& forall|z: WorkspaceId| #[trigger] v.ids.contains(z) ==> u.ids.contains(z)
                },
                None => false,
            },
{
    let b = r.normalize();
    let t = b.mended();
    let o0 = s.monitors[0].output;
    crate::mending::lemma_mended_leads(b);
    crate::bookends::lemma_normalize_leads(r);
    crate::keeping::law_normalize_adds_only(r);
    crate::parking::lemma_normalize_mons_calm(r, r.monitors.len() as int, o0);
    lemma_mended_work(b);
    assert(b.pool.busy(y));
    assert(r.pool.has(y));
    assert(b.pool.get(x) == r.pool.get(x));
    assert(t.pool.busy(x) == b.pool.busy(x));
    let left = s.pool.get(x).unwrap().tiles.filter(off_column(leader));
    if !b.pool.busy(x) {
        if let Some(u) = t.pool.get(x) {
            assert(u.tiles =~= left);
        }
    }
    assert(t.pool.has(y));
    assert forall|z: WorkspaceId|
        z != x && z != y && #[trigger] s.pool.busy(z) implies t.pool.has(z) && t.pool.get(
        z,
    ).unwrap().tiles == s.pool.get(z).unwrap().tiles && t.pool.get(z).unwrap().name == s.pool.get(
        z,
    ).unwrap().name by {
        assert(r.pool.has(z));
        if b.pool.busy(z) {
        } else {
            assert(r.pool.get(z).unwrap().tiles == s.pool.get(z).unwrap().tiles);
        }
    }
    assert forall|z: WorkspaceId| #[trigger] t.pool.busy(z) implies z == y || s.pool.busy(z) by {
        assert(b.pool.busy(z));
        assert(r.pool.busy(z));
    }
    assert forall|a: ActivityId, o: OutputId| r.view_of(a, o) is Some && s.monitor_pos(
        o,
    ) is Some implies match #[trigger] t.view_of(a, o) {
        Some(u) => {
            let v = r.view_of(a, o).unwrap();
            &&& u.active == v.active
            &&& u.ids.filter(|z: WorkspaceId| v.ids.contains(z)) == v.ids
            &&& forall|z: WorkspaceId| #[trigger] v.ids.contains(z) ==> u.ids.contains(z)
        },
        None => false,
    } by {
        crate::wholeness::lemma_same_monitor(s, r, o);
        lemma_settled_view(r, a, o);
    }
}

/// What a layout looks like after a column went from the active workspace of the focused strip to
/// workspace `y`, which monitor `mon2` shows.
pub open spec fn column_arrived(
    s: LayoutModel,
    t: LayoutModel,
    mon2: int,
    y: WorkspaceId,
    activate: bool,
    tile: Tile,
) -> bool {
    let act = s.acts.active;
    let x = s.view_of(act, s.monitors[s.focused].output.id).unwrap().active;
    let out = s.monitors[mon2].output.id;
    &&& hauled(s, t, x, y, tile.column)
    &&& t.acts.active == act
    &&& t.shows_on(act, out, y)
    &&& t.focused == if activate {
        mon2
    } else {
        s.focused
    }
    &&& t.view_of(act, out).unwrap().active == if activate {
        y
    } else {
        s.view_of(act, out).unwrap().active
    }
    &&& activate ==> t.pool.get(y).unwrap().active == s.pool.get(x).unwrap().active
}

/// Carrying the focused column to a place of a monitor, with the focus if that is asked for.
pub proof fn lemma_column_arrives(
    s: LayoutModel,
    mon2: int,
    to: int,
    activate: bool,
    tile: Tile,
    follow: bool,
)
    requires
        s.whole(),
        0 <= mon2 < s.monitors.len(),
        0 <= to < s.view_len(mon2),
        ({
            let x = s.view_of(s.acts.active, s.monitors[s.focused].output.id).unwrap().active;
            &&& s.pool.get(x).unwrap().active_tile() == Some(tile)
            &&& !tile.floating
            &&& s.active_view(s.monitors[mon2].output.id).unwrap().ids[to] != x
        }),
        follow || mon2 == s.focused,
        ({
            let r = s.carry_column(s.focused, s.active_place(s.focused).1, mon2, to, activate);
            (LayoutModel {
                focused: if follow && activate {
                    mon2
                } else {
                    r.focused
                },
                ..r
            }).normalize().mended().fits()
        }),
    ensures
        ({
            let r = s.carry_column(s.focused, s.active_place(s.focused).1, mon2, to, activate);
            let b = LayoutModel {
                focused: if follow && activate {
                    mon2
                } else {
                    r.focused
                },
                ..r
            };
            column_arrived(
                s,
                b.normalize().mended(),
                mon2,
                s.active_view(s.monitors[mon2].output.id).unwrap().ids[to],
                activate,
                tile,
            )
        }),
{
    let act = s.acts.active;
    let mon = s.focused;
    let from = s.active_place(mon).1;
    let out = s.monitors[mon2].output.id;
    lemma_active_place(s, mon);
    let f = s.active_view(s.monitors[mon].output.id).unwrap();
    let x = f.active;
    lemma_view_is_ok(s, act, s.monitors[mon].output.id);
    assert(s.pool.member(x, act));
    lemma_get(s.pool, x);
    let y = s.active_view(out).unwrap().ids[to];
    let r = s.carry_column(mon, from, mon2, to, activate);
    let b = LayoutModel {
        focused: if follow && activate {
            mon2
        } else {
            r.focused
        },
        ..r
    };
    lemma_carried_column(s, mon, from, mon2, to, activate, tile);
    crate::belonging::lemma_same_once(r, b);
    assert(b.coherent());
    lemma_hauled_settled(s, b, x, y, tile.column);
    lemma_view_is_ok(s, act, out);
    assert(s.monitor_pos(out) is Some);
    let t = b.normalize().mended();
    assert(b.view_of(act, out) == r.view_of(act, out));
    assert(s.active_view(out).unwrap().ids.contains(y));
    assert(t.view_of(act, out) is Some);
    assert(t.shows_on(act, out, y));
}

/// Moving the focused column to place `idx` of its strip takes its windows, in their order, from the
/// active workspace to the one there, or to the last one if the strip is shorter. No other window
/// moves. The focus goes along only if that was asked for.
pub proof fn law_column_moves_along_its_strip(s: LayoutModel, idx: int, activate: bool, tile: Tile)
    requires
        s.whole(),
        s.monitors.len() > 0,
        0 <= idx,
        s.move_column_to_workspace(idx, activate).mended().fits(),
        match s.view_of(s.acts.active, s.monitors[s.focused].output.id) {
            Some(v) => {
                &&& v.ids[if idx < v.ids.len() {
                    idx
                } else {
                    v.ids.len() - 1
                }] != v.active
                &&& s.pool.get(v.active).unwrap().active_tile() == Some(tile)
                &&& !tile.floating
            },
            None => false,
        },
    ensures
        ({
            let v = s.view_of(s.acts.active, s.monitors[s.focused].output.id).unwrap();
            let at = if idx < v.ids.len() {
                idx
            } else {
                v.ids.len() - 1
            };
            column_arrived(
                s,
                s.move_column_to_workspace(idx, activate).mended(),
                s.focused,
                v.ids[at],
                activate,
                tile,
            )
        }),
{
    let mon = s.focused;
    let v = crate::turning::lemma_strip(s);
    let n = v.ids.len() as int;
    let at = if idx < n {
        idx
    } else {
        n - 1
    };
    lemma_active_place(s, mon);
    let from = s.active_place(mon).1;
    let r = s.carry_column(mon, from, mon, at, activate);
    lemma_view_is_ok(s, s.acts.active, s.monitors[mon].output.id);
    assert(s.pool.member(v.active, s.acts.active));
    assert(s.workspace_at(mon, from) == s.pool.get(v.active));
    assert(s.move_column_to_workspace(idx, activate) == r.normalize());
    crate::windows::lemma_focus_on_leads(s, mon, at);
    lemma_column_focus(s, mon, from, mon, at, activate);
    assert(r == (LayoutModel { focused: r.focused, ..r }));
    lemma_column_arrives(s, mon, at, activate, tile, false);
}

/// Carrying a column leaves the focused output.
pub proof fn lemma_column_focus(s: LayoutModel, mon: int, from: int, mon2: int, to: int, activate: bool)
    ensures
        s.carry_column(mon, from, mon2, to, activate).focused == s.focused,
{
}

/// Moving the focused column up or down takes its windows, in their order, from the active
/// workspace, at place `at`, to the one above or below. No other window moves. The focus goes along
/// only if that was asked for.
pub proof fn law_column_moves_by_one(s: LayoutModel, activate: bool, at: int, up: bool, tile: Tile)
    requires
        s.whole(),
        s.monitors.len() > 0,
        (if up {
            s.column_up(activate)
        } else {
            s.column_down(activate)
        }).mended().fits(),
        match s.view_of(s.acts.active, s.monitors[s.focused].output.id) {
            Some(v) => {
                &&& 0 <= at < v.ids.len()
                &&& v.ids[at] == v.active
                &&& if up {
                    at > 0
                } else {
                    at + 1 < v.ids.len()
                }
                &&& s.pool.get(v.active).unwrap().active_tile() == Some(tile)
                &&& !tile.floating
            },
            None => false,
        },
    ensures
        ({
            let v = s.view_of(s.acts.active, s.monitors[s.focused].output.id).unwrap();
            column_arrived(
                s,
                (if up {
                    s.column_up(activate)
                } else {
                    s.column_down(activate)
                }).mended(),
                s.focused,
                v.ids[if up {
                    at - 1
                } else {
                    at + 1
                }],
                activate,
                tile,
            )
        }),
{
    let mon = s.focused;
    let v = crate::turning::lemma_strip(s);
    let to = if up {
        at - 1
    } else {
        at + 1
    };
    crate::turning::lemma_active_at(s, at);
    lemma_view_is_ok(s, s.acts.active, s.monitors[mon].output.id);
    assert(s.pool.member(v.active, s.acts.active));
    assert(s.workspace_at(mon, at) == s.pool.get(v.active));
    let r = s.carry_column(mon, at, mon, to, activate);
    lemma_column_focus(s, mon, at, mon, to, activate);
    assert(r == (LayoutModel { focused: r.focused, ..r }));
    lemma_column_arrives(s, mon, to, activate, tile, false);
}

/// Moving the focused column to an output takes its windows, in their order, from the active
/// workspace to the one at place `idx` of the strip there, or to the last one if that strip is
/// shorter, or to the active one there if no place is given. No other window moves. The focus goes
/// along, to that output, only if that was asked for.
pub proof fn law_column_moves_to_an_output(
    s: LayoutModel,
    mon2: int,
    idx: Option<int>,
    activate: bool,
    tile: Tile,
    y: WorkspaceId,
)
    requires
        s.whole(),
        0 <= mon2 < s.monitors.len(),
        idx is Some ==> 0 <= idx.unwrap(),
        s.move_column_to_output(mon2, idx, activate).mended().fits(),
        match (
            s.view_of(s.acts.active, s.monitors[s.focused].output.id),
            s.view_of(s.acts.active, s.monitors[mon2].output.id),
        ) {
            (Some(v), Some(u)) => {
                &&& y == match idx {
                    Some(i) => if i < u.ids.len() {
                        u.ids[i]
                    } else {
                        u.ids.last()
                    },
                    None => u.active,
                }
                &&& y != v.active
                &&& s.pool.get(v.active).unwrap().active_tile() == Some(tile)
                &&& !tile.floating
            },
            _ => false,
        },
    ensures
        column_arrived(
            s,
            s.move_column_to_output(mon2, idx, activate).mended(),
            mon2,
            y,
            activate,
            tile,
        ),
{
    let mon = s.focused;
    let v = crate::turning::lemma_strip(s);
    lemma_active_place(s, mon);
    lemma_active_place(s, mon2);
    let u = s.active_view(s.monitors[mon2].output.id).unwrap();
    let n = u.ids.len() as int;
    let want = match idx {
        Some(i) => i,
        None => s.active_place(mon2).1,
    };
    let to = if want < n {
        want
    } else {
        n - 1
    };
    let from = s.active_place(mon).1;
    lemma_view_is_ok(s, s.acts.active, s.monitors[mon].output.id);
    assert(s.pool.member(v.active, s.acts.active));
    assert(s.workspace_at(mon, from) == s.pool.get(v.active));
    assert(u.ids[to] == y);
    lemma_column_arrives(s, mon2, to, activate, tile, true);
}

/// A column that is handed in is put behind what is on the workspace at that place of that monitor.
/// Its head is the active window there and has the focus, if that was asked for. No other window
/// moves.
pub proof fn law_handed_in_column_is_put(
    s: LayoutModel,
    mon: int,
    idx: int,
    column: Seq<Tile>,
    head: Option<WindowId>,
    activate: bool,
)
    requires
        s.whole(),
        0 <= mon < s.monitors.len(),
        0 <= idx < s.view_len(mon),
        column.len() > 0,
        s.add_column(mon, idx, column, head, activate).mended().fits(),
    ensures
        ({
            let t = s.add_column(mon, idx, column, head, activate).mended();
            let act = s.acts.active;
            let out = s.monitors[mon].output.id;
            let v = s.view_of(act, out).unwrap();
            let y = v.ids[idx];
            &&& t.pool.has(y)
            &&& t.pool.get(y).unwrap().tiles == s.pool.get(y).unwrap().tiles + column
            &&& t.pool.get(y).unwrap().name == s.pool.get(y).unwrap().name
            &&& activate ==> t.pool.get(y).unwrap().active == head
            &&& forall|z: WorkspaceId|
                z != y && #[trigger] s.pool.busy(z) ==> t.pool.has(z) && t.pool.get(z).unwrap().tiles
                    == s.pool.get(z).unwrap().tiles
            &&& forall|z: WorkspaceId| #[trigger] t.pool.busy(z) ==> z == y || s.pool.busy(z)
            &&& t.acts.active == act
            &&& t.shows_on(act, out, y)
            &&& t.focused == if activate {
                mon
            } else {
                s.focused
            }
            &&& t.view_of(act, out).unwrap().active == if activate {
                y
            } else {
                v.active
            }
        }),
{
    let act = s.acts.active;
    let out = s.monitors[mon].output.id;
    let v = s.active_view(out).unwrap();
    let y = v.ids[idx];
    let p = s.put_column(mon, idx, column, head, activate);
    let r = LayoutModel {
        focused: if activate {
            mon
        } else {
            p.focused
        },
        ..p
    };
    let b = r.normalize();
    let t = b.mended();
    assert(s.add_column(mon, idx, column, head, activate) == b);
    crate::mending::lemma_mended_leads(b);
    lemma_view_is_ok(s, act, out);
    assert(v.ids.contains(y));
    assert(s.pool.member(y, act));
    lemma_get(s.pool, y);
    let d = s.pool.get(y).unwrap();
    let d1 = d.add_column(column, head, activate);
    let s1 = LayoutModel { pool: s.pool.add_column(y, column, head, activate), ..s };
    lemma_get_put(s.pool, y, d1);
    let d2 = WorkspaceModel { output_id: Some(out), ..d1 };
    let s2 = s1.claim(mon, y);
    lemma_get(s1.pool, y);
    lemma_get_put(s1.pool, y, d2);
    assert(r.pool == s2.pool);
    assert(r.pool.get(y) == Some(d2));
    assert(d2.tiles.len() > 0);
    crate::carrying::lemma_put_column(s, mon, idx, column, head, activate);
    crate::belonging::lemma_same_once(s, s2);
    assert(s2.active_view(out) == Some(v));
    lemma_view_after_set(s2.acts, act, out, v.activate(idx));
    crate::windows::lemma_focus_on_leads(s2, mon, idx);
    assert forall|a: ActivityId, o: OutputId, z: WorkspaceId| #[trigger] r.shows_on(
        a,
        o,
        z,
    ) implies s.shows_on(a, o, z) by {
        if a != act || o != out {
            lemma_view_after_set_other(s2.acts, act, out, v.activate(idx), a, o);
            assert(r.view_of(a, o) == s.view_of(a, o));
        }
    }
    crate::belonging::lemma_shrunk_once(s, r);
    assert(r.coherent());
    crate::bookends::lemma_normalize_leads(r);
    crate::keeping::law_normalize_adds_only(r);
    crate::parking::lemma_normalize_mons_calm(r, r.monitors.len() as int, s.monitors[mon].output);
    lemma_mended_work(b);
    assert(r.pool.has(y));
    assert(b.pool.busy(y));
    assert forall|z: WorkspaceId| z != y && #[trigger] s.pool.busy(z) implies t.pool.has(z)
        && t.pool.get(z).unwrap().tiles == s.pool.get(z).unwrap().tiles by {
        assert(s1.pool.get(z) == s.pool.get(z));
        assert(r.pool.get(z) == s.pool.get(z));
        assert(r.pool.has(z));
        assert(b.pool.busy(z));
    }
    assert forall|z: WorkspaceId| #[trigger] t.pool.busy(z) implies z == y || s.pool.busy(z) by {
        assert(b.pool.busy(z));
        assert(r.pool.busy(z));
        if z != y {
            assert(s1.pool.get(z) == s.pool.get(z));
            assert(r.pool.get(z) == s1.pool.get(z));
        }
    }
    assert(s.monitor_pos(out) is Some);
    crate::wholeness::lemma_same_monitor(s, r, out);
    assert(r.view_of(act, out) is Some);
    lemma_settled_view(r, act, out);
}

} // verus!
