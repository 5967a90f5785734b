//! What the end of an operation leaves as the operation made it.

use vstd::prelude::*;

use crate::changing::{lists_once, previous_ok};
use crate::coherence::{lemma_act, lemma_get, lemma_same_ids, lemma_view_is_ok};
use crate::cores::apart;
use crate::ids::{ActivityId, OutputId, WorkspaceId};
use crate::keeping_views::lemma_filter;
use crate::lasting::level;
use crate::layout::LayoutModel;
use crate::workspace::Output;

verus! {

/// Mending straightens first.
pub proof fn lemma_straight_mended(s: LayoutModel)
    requires
        s.staffed(),
    ensures
        s.straightened().mended() == s.mended(),
        s.straightened().staffed(),
        lists_once(s.straightened().pool),
        s.straightened().monitors == s.monitors,
        s.straightened().acts.list == s.acts.list,
        s.straightened().acts.active == s.acts.active,
        forall|x: WorkspaceId, a: ActivityId| #[trigger]
            s.straightened().pool.member(x, a) == s.pool.member(x, a),
        forall|x: WorkspaceId| #[trigger] s.straightened().pool.pos(x) == s.pool.pos(x),
{
    let a = s.straightened();
    crate::wholeness::lemma_straightened(s);
    crate::mending::lemma_straightened_leads(s);
    assert(a.straightened() == a) by {
        assert forall|i: int|
            0 <= i < a.pool.items.len() implies #[trigger] a.straightened().pool.items[i]
            == a.pool.items[i] by {
            assert(a.pool.items[i].activities.no_duplicates());
            crate::wholeness::lemma_distinct_once(a.pool.items[i].activities);
        }
        assert(a.straightened().pool.items =~= a.pool.items);
    }
}

/// Mending leaves workspaces with windows or a name as they are, and gives no other one windows or
/// a name.
pub proof fn lemma_mended_work(s: LayoutModel)
    requires
        s.staffed(),
        s.mended().fits(),
    ensures
        forall|x: WorkspaceId| #[trigger] s.mended().pool.busy(x) == s.pool.busy(x),
        forall|x: WorkspaceId| #[trigger]
            s.pool.busy(x) ==> s.mended().pool.has(x) && {
                let v = s.pool.get(x).unwrap();
                let w = s.mended().pool.get(x).unwrap();
                &&& w.id == v.id
                &&& w.name == v.name
                &&& w.tiles == v.tiles
                &&& w.active == v.active
                &&& w.sticky == v.sticky
            },
        forall|x: WorkspaceId, a: ActivityId|
            s.pool.busy(x) ==> #[trigger] s.mended().pool.member(x, a) == s.pool.member(x, a),
{
    let o = Output { id: OutputId(0), connector: OutputId(0) };
    let b = s.straightened();
    let t = s.mended();
    lemma_straight_mended(s);
    crate::returning::lemma_mended_steady(b, o);
    assert forall|x: WorkspaceId| #[trigger] s.pool.has(x) implies b.pool.get(x) == Some(
        crate::workspace::WorkspaceModel {
            activities: crate::membership::distinct(s.pool.get(x).unwrap().activities),
            ..s.pool.get(x).unwrap()
        },
    ) by {
        lemma_get(s.pool, x);
        assert(b.pool.pos(x) == s.pool.pos(x));
    }
    assert forall|x: WorkspaceId| #[trigger] s.pool.busy(x) == b.pool.busy(x) by {
        assert(b.pool.pos(x) == s.pool.pos(x));
        if s.pool.has(x) {
            assert(b.pool.get(x) is Some);
        }
    }
    assert forall|x: WorkspaceId| #[trigger] t.pool.busy(x) == s.pool.busy(x) by {
        assert(s.pool.busy(x) == b.pool.busy(x));
        if b.pool.busy(x) {
            assert(t.pool.busy(x));
        }
    }
    assert forall|x: WorkspaceId| #[trigger] s.pool.busy(x) implies t.pool.has(x) && {
        let v = s.pool.get(x).unwrap();
        let w = t.pool.get(x).unwrap();
        &&& w.id == v.id
        &&& w.name == v.name
        &&& w.tiles == v.tiles
        &&& w.active == v.active
        &&& w.sticky == v.sticky
    } by {
        assert(b.pool.busy(x));
        assert(s.pool.has(x));
    }
    assert forall|x: WorkspaceId, a: ActivityId| s.pool.busy(x) implies #[trigger] t.pool.member(
        x,
        a,
    ) == s.pool.member(x, a) by {
        assert(b.pool.busy(x));
        assert(b.pool.member(x, a) == s.pool.member(x, a));
    }
}

/// Mending leaves what an activity shows on a connected output where it is, in its order, and the
/// active workspace active, as long as the activity shows none of it on another output.
pub proof fn lemma_mended_view(s: LayoutModel, a: ActivityId, o: OutputId)
    requires
        s.coherent(),
        s.monitors.len() > 0,
        s.monitor_pos(o) is Some,
        s.mended().fits(),
        s.view_of(a, o) is Some,
        forall|p: OutputId, x: WorkspaceId|
            p != o && #[trigger] s.shows_on(a, p, x) ==> !s.view_of(a, o).unwrap().ids.contains(x),
    ensures
        match (s.view_of(a, o), s.mended().view_of(a, o)) {
            (Some(v), Some(w)) => {
                &&& w.active == v.active
                &&& w.ids.filter(|x: WorkspaceId| v.ids.contains(x)) == v.ids
                &&& forall|x: WorkspaceId| #[trigger] v.ids.contains(x) ==> w.ids.contains(x)
            },
            _ => false,
        },
{
    let v = s.view_of(a, o).unwrap();
    let q = |x: WorkspaceId| v.ids.contains(x);
    let b = s.straightened();
    lemma_straight_mended(s);
    lemma_view_is_ok(s, a, o);
    assert(v.ids.filter(q) == v.ids) by {
        assert forall|i: int| 0 <= i < v.ids.len() implies q(#[trigger] v.ids[i]) by {
            assert(v.ids.contains(v.ids[i]));
        }
        crate::cores::lemma_filter_all(v.ids, q);
    }
    assert(b.acts.get(a) == s.acts.get(a)) by {
        lemma_same_ids(b.acts, s.acts);
    }
    assert(b.view_of(a, o) == Some(v));
    assert(b.monitor_pos(o) == s.monitor_pos(o));
    assert forall|x: WorkspaceId| #[trigger] q(x) implies v.ids.contains(x) && b.pool.member(
        x,
        a,
    ) by {
        assert(s.pool.member(x, a));
    }
    let views = b.acts.get(a).unwrap().views;
    assert forall|j: int, x: WorkspaceId|
        0 <= j < views.len() && views[j].output != o && #[trigger] q(x) implies !(
    #[trigger] views[j].view.ids.contains(x)) by {
        lemma_act(s.acts, a);
        let i = s.acts.pos(a).unwrap();
        crate::belonging::lemma_entry_is_view(s, i, j);
        if views[j].view.ids.contains(x) {
            assert(s.shows_on(a, views[j].output, x));
        }
    }
    crate::returning::lemma_mended_pick(b, a, o, q);
    let w = s.mended().view_of(a, o).unwrap();
    lemma_filter(w.ids, q);
    assert(q(v.active));
    assert forall|x: WorkspaceId| #[trigger] v.ids.contains(x) implies w.ids.contains(x) by {
        assert(q(x));
        assert(w.ids.filter(q).contains(x));
    }
}

/// Mending leaves a workspace where an activity shows it, if it shows it nowhere else.
pub proof fn lemma_mended_shows(s: LayoutModel, a: ActivityId, o: OutputId, id: WorkspaceId)
    requires
        s.staffed(),
        s.monitors.len() > 0,
        s.monitor_pos(o) is Some,
        s.mended().fits(),
        s.shows_on(a, o, id),
        s.view_of(a, o).unwrap().ids.no_duplicates(),
        s.pool.member(id, a),
        forall|j: int|
            0 <= j < s.acts.get(a).unwrap().views.len() && (#[trigger] s.acts.get(
                a,
            ).unwrap().views[j]).output != o ==> !s.acts.get(a).unwrap().views[j].view.ids.contains(
                id,
            ),
    ensures
        s.mended().shows_on(a, o, id),
{
    let v = s.view_of(a, o).unwrap();
    let q = |x: WorkspaceId| x == id;
    let b = s.straightened();
    lemma_straight_mended(s);
    assert(b.acts.get(a) == s.acts.get(a)) by {
        lemma_same_ids(b.acts, s.acts);
    }
    lemma_filter(v.ids, q);
    assert(b.monitor_pos(o) == s.monitor_pos(o));
    assert(v.ids.filter(q).contains(id));
    assert(b.pool.member(id, a));
    let views = b.acts.get(a).unwrap().views;
    assert forall|j: int, x: WorkspaceId|
        0 <= j < views.len() && views[j].output != o && #[trigger] q(x) implies !(
    #[trigger] views[j].view.ids.contains(x)) by {
        assert(views[j] == s.acts.get(a).unwrap().views[j]);
    }
    crate::returning::lemma_mended_pick(b, a, o, q);
    let w = s.mended().view_of(a, o).unwrap();
    lemma_filter(w.ids, q);
    assert(w.ids.filter(q).contains(id));
}

/// A layout with the same workspaces, and every view with the same strip, is whole if the other one
/// is.
pub proof fn lemma_same_strips(s: LayoutModel, t: LayoutModel)
    requires
        s.whole(),
        t.coherent(),
        t.pool == s.pool,
        t.acts.ids() == s.acts.ids(),
        previous_ok(t.acts),
        t.parked == s.parked,
        t.pointed(),
        level(s, t),
        forall|i: int|
            0 <= i < s.monitors.len() ==> (#[trigger] s.monitors[i]).empty_workspace_above_first
                == t.monitors[i].empty_workspace_above_first,
        forall|a: ActivityId, o: OutputId|
            match (#[trigger] t.view_of(a, o), s.view_of(a, o)) {
                (Some(w), Some(v)) => w.ids == v.ids,
                (None, None) => true,
                _ => false,
            },
    ensures
        t.whole(),
{
    assert(t.acts.list.len() == t.acts.ids().len());
    assert(s.acts.list.len() == s.acts.ids().len());
    assert forall|o: OutputId| #[trigger] t.monitor_pos(o) == s.monitor_pos(o) by {
        crate::wholeness::lemma_same_monitor(s, t, o);
    }
    assert forall|a: ActivityId, o: OutputId, x: WorkspaceId| #[trigger] t.shows_on(a, o, x)
        == s.shows_on(a, o, x) by {
        assert(t.view_of(a, o) is Some <==> s.view_of(a, o) is Some);
    }
    assert forall|a: ActivityId, o: OutputId| #[trigger] t.view_of(a, o) is Some implies t.monitor_pos(
        o,
    ) is Some by {
        assert(s.view_of(a, o) is Some);
        assert(s.monitor_pos(o) is Some);
    }
    assert forall|c: ActivityId, o1: OutputId, o2: OutputId, x: WorkspaceId|
        o1 != o2 && #[trigger] t.shows_on(c, o1, x) implies !(#[trigger] t.shows_on(c, o2, x)) by {
        assert(s.shows_on(c, o1, x));
        assert(!s.shows_on(c, o2, x));
    }
    assert forall|i: int, m: int|
        0 <= i < t.acts.list.len() && 0 <= m < t.monitors.len() implies t.view_of(
        (#[trigger] t.acts.list[i]).id,
        (#[trigger] t.monitors[m]).output.id,
    ) is Some && t.ends_empty(t.acts.list[i].id, m) by {
        assert(t.acts.ids()[i] == t.acts.list[i].id);
        assert(s.acts.ids()[i] == s.acts.list[i].id);
        assert(s.monitors[m].output == t.monitors[m].output);
        assert(s.view_of(s.acts.list[i].id, s.monitors[m].output.id) is Some);
        assert(s.ends_empty(s.acts.list[i].id, m));
        assert(t.view_of(s.acts.list[i].id, s.monitors[m].output.id) is Some);
    }
    assert forall|i: int, m: int|
        0 <= i < t.acts.list.len() && 0 <= m
            < t.monitors.len() implies #[trigger] t.ends_empty(t.acts.list[i].id, m) by {
        assert(t.view_of(t.acts.list[i].id, t.monitors[m].output.id) is Some);
    }
    assert(t.outputs_apart()) by {
        assert forall|i: int| 0 <= i < t.monitors.len() implies (
        #[trigger] t.monitors[i]).output.id.0 != 0 by {
            assert(s.monitors[i].output == t.monitors[i].output);
        }
        assert forall|i: int, j: int| 0 <= i < j < t.monitors.len() implies apart(
            (#[trigger] t.monitors[i]).output,
            (#[trigger] t.monitors[j]).output,
        ) by {
            assert(s.monitors[i].output == t.monitors[i].output);
            assert(s.monitors[j].output == t.monitors[j].output);
            assert(apart(s.monitors[i].output, s.monitors[j].output));
        }
    }
    if t.monitors.len() > 0 {
        assert forall|x: WorkspaceId, a: ActivityId| #[trigger] t.pool.member(x, a) implies exists|
            b: OutputId,
        | t.shows_on(a, b, x) by {
            assert(s.pool.member(x, a));
            let b = choose|b: OutputId| s.shows_on(a, b, x);
            assert(t.shows_on(a, b, x));
        }
    }
}

/// Giving the focus to a workspace leaves a whole layout whole.
pub proof fn lemma_focus_whole(s: LayoutModel, mon: int, idx: int)
    requires
        s.whole(),
        0 <= mon < s.monitors.len(),
    ensures
        s.focus_on(mon, idx).whole(),
        s.focus_on(mon, idx).mended() == s.focus_on(mon, idx),
        forall|a: ActivityId, o: OutputId|
            a != s.acts.active || o != s.monitors[mon].output.id ==> #[trigger] s.focus_on(
                mon,
                idx,
            ).view_of(a, o) == s.view_of(a, o),
{
    let t = s.focus_on(mon, idx);
    let act = s.acts.active;
    let out = s.monitors[mon].output.id;
    crate::windows::lemma_focus_on_leads(s, mon, idx);
    crate::placing::lemma_focus_on(s, mon, idx);
    lemma_same_ids(s.acts, t.acts);
    assert forall|a: ActivityId, o: OutputId| a != act || o != out implies #[trigger] t.view_of(a, o)
        == s.view_of(a, o) by {
        if let Some(v) = s.active_view(out) {
            crate::transfer::lemma_view_after_set_other(s.acts, act, out, v.activate(idx), a, o);
        }
    }
    lemma_same_strips(s, t);
    crate::wholeness::law_mending_is_idle(t);
}

} // verus!
