//! A workspace that is opened beside another one is right above or right below it.

use vstd::prelude::*;

use crate::coherence::{lemma_same_ids, lemma_view_is_ok};
use crate::cores::apart;
use crate::disconnecting::lemma_insert_contains;
use crate::ids::{ActivityId, OutputId, WorkspaceId};
use crate::layout::LayoutModel;
use crate::persisting::lemma_focus_whole;
use crate::search::{equal_to, lemma_find_from};
use crate::transfer::{lemma_view_after_set, lemma_view_after_set_other};
use crate::workspace::WorkspaceModel;

verus! {

/// A new workspace between others of a view leaves a whole layout whole.
pub proof fn lemma_mint_whole(s: LayoutModel, mon: int, pos: int)
    requires
        s.whole(),
        0 <= mon < s.monitors.len(),
        0 <= pos < s.view_len(mon),
        s.monitors[mon].empty_workspace_above_first ==> pos > 0,
        s.add_workspace_at(mon, pos).fits(),
    ensures
        ({
            let t = s.add_workspace_at(mon, pos);
            let act = s.acts.active;
            let out = s.monitors[mon].output.id;
            let v = s.active_view(out).unwrap();
            let id = s.pool.next_id();
            &&& t.whole()
            &&& t.acts.active == act
            &&& t.active_view(out) == Some(v.insert(pos, id))
            &&& forall|a: ActivityId, o: OutputId|
                a != act || o != out ==> #[trigger] t.view_of(a, o) == s.view_of(a, o)
            &&& !s.pool.has(id)
            &&& t.pool.get(id) == Some(WorkspaceModel::fresh(id, out, act))
            &&& forall|x: WorkspaceId| x != id ==> #[trigger] t.pool.get(x) == s.pool.get(x)
            &&& s.leads_to(t)
        }),
{
    let t = s.add_workspace_at(mon, pos);
    let act = s.acts.active;
    let out = s.monitors[mon].output.id;
    let v = s.active_view(out).unwrap();
    let n = v.ids.len() as int;
    let id = s.pool.next_id();
    let w = v.insert(pos, id);
    crate::bookends::lemma_mint_into_leads(s, mon, act, pos);
    crate::keeping::lemma_mint_into(s, mon, act, pos);
    crate::keeping_views::lemma_mint(s, out, act);
    crate::wholeness::lemma_mint_into_extends(s, mon, act, pos);
    crate::wholeness::lemma_mint_lists(s.pool, out, act);
    lemma_view_after_set(s.acts, act, out, w);
    lemma_same_ids(s.acts, t.acts);
    lemma_view_is_ok(s, act, out);
    assert forall|a: ActivityId, o: OutputId| a != act || o != out implies #[trigger] t.view_of(a, o)
        == s.view_of(a, o) by {
        lemma_view_after_set_other(s.acts, act, out, w, a, o);
    }
    assert(t.acts.list.len() == t.acts.ids().len());
    assert(s.acts.list.len() == s.acts.ids().len());
    assert forall|a: ActivityId, o: OutputId| #[trigger] t.view_of(a, o) is Some implies t.monitor_pos(
        o,
    ) is Some by {
        assert(s.view_of(a, o) is Some);
        crate::wholeness::lemma_same_monitor(s, t, o);
        assert(s.monitor_pos(o) is Some);
    }
    assert forall|a: ActivityId, o: OutputId, x: WorkspaceId| #[trigger] t.shows_on(a, o, x)
        <==> s.shows_on(a, o, x) || (a == act && o == out && x == id) by {
        lemma_insert_contains(v.ids, pos, id, x);
    }
    assert forall|a: ActivityId, o: OutputId| !(#[trigger] s.shows_on(a, o, id)) by {
        if s.shows_on(a, o, id) {
            lemma_view_is_ok(s, a, o);
            assert(s.pool.member(id, a));
        }
    }
    assert forall|c: ActivityId, o1: OutputId, o2: OutputId, x: WorkspaceId|
        o1 != o2 && #[trigger] t.shows_on(c, o1, x) implies !(#[trigger] t.shows_on(c, o2, x)) by {
        assert(s.shows_on(c, o1, x) ==> !s.shows_on(c, o2, x));
        assert(!s.shows_on(c, o1, id) && !s.shows_on(c, o2, id));
    }
    assert(t.outputs_apart()) by {
        assert forall|i: int| 0 <= i < t.monitors.len() implies (
        #[trigger] t.monitors[i]).output.id.0 != 0 by {
            assert(s.monitors[i].output == t.monitors[i].output);
        }
        assert forall|i: int, j: int| 0 <= i < j < t.monitors.len() implies apart(
            (#[trigger] t.monitors[i]).output,
            (#[trigger] t.monitors[j]).output,
        ) by {
            assert(s.monitors[i].output == t.monitors[i].output);
            assert(s.monitors[j].output == t.monitors[j].output);
            assert(apart(s.monitors[i].output, s.monitors[j].output));
        }
    }
    assert forall|x: WorkspaceId| #[trigger] t.pool.busy(x) implies s.pool.busy(x) by {
        if x == id {
            assert(t.pool.get(id).unwrap().tiles.len() == 0);
        } else {
            assert(t.pool.get(x) == s.pool.get(x));
        }
    }
    assert forall|i: int, m: int|
        0 <= i < t.acts.list.len() && 0 <= m < t.monitors.len() implies t.view_of(
        (#[trigger] t.acts.list[i]).id,
        (#[trigger] t.monitors[m]).output.id,
    ) is Some && t.ends_empty(t.acts.list[i].id, m) by {
        assert(t.acts.ids()[i] == t.acts.list[i].id);
        assert(s.acts.ids()[i] == s.acts.list[i].id);
        assert(s.monitors[m].output == t.monitors[m].output);
        let a = s.acts.list[i].id;
        let o = s.monitors[m].output.id;
        assert(s.view_of(s.acts.list[i].id, s.monitors[m].output.id) is Some);
        assert(s.ends_empty(s.acts.list[i].id, m));
        if a == act && o == out {
            assert(m == mon) by {
                if m < mon {
                    assert(apart(s.monitors[m].output, s.monitors[mon].output));
                } else if mon < m {
                    assert(apart(s.monitors[mon].output, s.monitors[m].output));
                }
            }
            assert(w.ids.last() == v.ids.last());
            if pos > 0 {
                assert(w.ids[0] == v.ids[0]);
            }
        }
    }
    assert forall|i: int, m: int|
        0 <= i < t.acts.list.len() && 0 <= m
            < t.monitors.len() implies #[trigger] t.ends_empty(t.acts.list[i].id, m) by {
        assert(t.view_of(t.acts.list[i].id, t.monitors[m].output.id) is Some);
    }
    assert forall|x: WorkspaceId, a: ActivityId| #[trigger] t.pool.member(x, a) implies exists|
        b: OutputId,
    | t.shows_on(a, b, x) by {
        if s.pool.member(x, a) {
            let b = choose|b: OutputId| s.shows_on(a, b, x);
            assert(t.shows_on(a, b, x));
        }
    }
}

/// A workspace that is opened above the focused one, or below it, is new and empty, stands right
/// above or right below it, and gets the focus. Everything else stays as it is. Where an empty
/// workspace already ends the view there, or begins it, that one gets the focus instead.
pub proof fn law_opening_beside_is_adjacent(s: LayoutModel, below: int, at: int)
    requires
        s.whole(),
        s.monitors.len() > 0,
        below == 0 || below == 1,
        0 <= at < s.view_len(s.focused),
        s.active_view(s.monitors[s.focused].output.id).unwrap().ids[at] == s.active_view(
            s.monitors[s.focused].output.id,
        ).unwrap().active,
        s.open_beside(below).mended().fits(),
        s.view_len(s.focused) <= usize::MAX,
    ensures
        ({
            let t = s.open_beside(below).mended();
            let act = s.acts.active;
            let m = s.monitors[s.focused];
            let out = m.output.id;
            let v = s.active_view(out).unwrap();
            let w = t.view_of(act, out).unwrap();
            &&& t.whole()
            &&& t.acts.active == act
            &&& t.focused == s.focused
            &&& t.view_of(act, out) is Some
            &&& forall|a: ActivityId, o: OutputId|
                a != act || o != out ==> #[trigger] t.view_of(a, o) == s.view_of(a, o)
            &&& forall|x: WorkspaceId| #[trigger]
                s.pool.has(x) ==> t.pool.get(x) == s.pool.get(x)
            &&& if m.empty_workspace_above_first && at + below == 0 {
                w.ids == v.ids && w.active == v.ids[0]
            } else if at + below >= v.ids.len() - 1 {
                w.ids == v.ids && w.active == v.ids.last()
            } else {
                &&& w.ids == v.ids.insert(at + below, w.active)
                &&& w.previous == Some(v.active)
                &&& !s.pool.has(w.active)
                &&& t.pool.has(w.active)
                &&& !t.pool.busy(w.active)
                &&& t.pool.get(w.active).unwrap().activities == seq![act]
            }
        }),
{
    let mon = s.focused;
    let m = s.monitors[mon];
    let act = s.acts.active;
    let out = m.output.id;
    let v = s.active_view(out).unwrap();
    let n = v.ids.len() as int;
    let r = s.open_beside(below);
    lemma_view_is_ok(s, act, out);
    lemma_find_from(v.ids, equal_to(v.active), 0);
    assert(equal_to(v.active)(v.ids[at]));
    assert(v.active_position() == at);
    assert(s.active_place(mon).1 == at);
    crate::mending::lemma_mended_leads(r);
    if m.empty_workspace_above_first && at + below == 0 {
        assert(r == s.focus_on(mon, 0));
        lemma_focus_whole(s, mon, 0);
        crate::placing::lemma_focus_on(s, mon, 0);
        crate::windows::lemma_focus_on_leads(s, mon, 0);
    } else if at + below >= n - 1 {
        assert(r == s.focus_on(mon, n - 1));
        lemma_focus_whole(s, mon, n - 1);
        crate::placing::lemma_focus_on(s, mon, n - 1);
        crate::windows::lemma_focus_on_leads(s, mon, n - 1);
    } else {
        let pos = at + below;
        let id = s.pool.next_id();
        let a = s.add_workspace_at(mon, pos);
        assert(r == a.focus_on(mon, pos));
        crate::windows::lemma_focus_on_leads(a, mon, pos);
        assert(a.fits());
        lemma_mint_whole(s, mon, pos);
        let u = v.insert(pos, id);
        assert(a.monitors[mon].output == s.monitors[mon].output);
        lemma_focus_whole(a, mon, pos);
        crate::placing::lemma_focus_on(a, mon, pos);
        lemma_view_after_set(a.acts, act, out, u.activate(pos));
        assert(u.ids[pos] == id);
        assert(id != v.active) by {
            assert(v.ids.contains(v.active));
            assert(s.pool.member(v.active, act));
        }
        assert(r.view_of(act, out) == Some(u.activate(pos)));
        assert forall|x: ActivityId, o: OutputId| x != act || o != out implies #[trigger] r.view_of(
            x,
            o,
        ) == s.view_of(x, o) by {
            assert(r.view_of(x, o) == a.view_of(x, o));
            assert(a.view_of(x, o) == s.view_of(x, o));
        }
    }
}

} // verus!
