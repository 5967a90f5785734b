//! Destroying and minting workspaces, and sweeping views, keeps the layout coherent.

use vstd::prelude::*;

use crate::activity::{keyed, without, ActivityModel, EntryModel};
use crate::coherence::{
    activity_ok, acts_ok, lemma_act, lemma_get, lemma_get_remove, lemma_pos_of, lemma_push,
    lemma_push_coherent, lemma_same_ids, lemma_view_is_ok, lemma_with_view_coherent, member_ok,
    view_ok,
};
use crate::ids::{ActivityId, OutputId, WorkspaceId};
use crate::layout::LayoutModel;
use crate::pool::PoolModel;
use crate::search::{equal_to, lemma_find_from};
use crate::view::ViewModel;
use crate::workspace::WorkspaceModel;

verus! {

/// No two entries are of the same output.
pub open spec fn keys_differ(entries: Seq<EntryModel>) -> bool {
    forall|i: int, j: int|
        0 <= i < j < entries.len() ==> (#[trigger] entries[i]).output != (
        #[trigger] entries[j]).output
}

/// View `v` without workspace `id`; none if nothing would be left.
pub open spec fn rid(v: ViewModel, id: WorkspaceId) -> Option<ViewModel> {
    match v.position_of(id) {
        None => Some(v),
        Some(p) => if v.ids.len() == 1 {
            None
        } else {
            Some(v.remove_at(p))
        },
    }
}

/// Entry `e` without workspace `id`; none if nothing would be left.
pub open spec fn trimmed(e: EntryModel, id: WorkspaceId) -> Option<EntryModel> {
    match rid(e.view, id) {
        Some(v) => Some(EntryModel { view: v, ..e }),
        None => None,
    }
}

/// Taking a workspace out of all entries trims each of them.
pub proof fn lemma_without(entries: Seq<EntryModel>, id: WorkspaceId)
    requires
        keys_differ(entries),
    ensures
        keys_differ(without(entries, id)),
        forall|j: int|
            0 <= j < without(entries, id).len() ==> exists|i: int|
                0 <= i < entries.len() && trimmed(entries[i], id) == Some(
                    #[trigger] without(entries, id)[j],
                ),
        forall|i: int|
            0 <= i < entries.len() ==> match trimmed(#[trigger] entries[i], id) {
                Some(e) => without(entries, id).contains(e),
                None => true,
            },
    decreases entries.len(),
{
    if entries.len() > 0 {
        let rest = entries.drop_last();
        assert(keys_differ(rest)) by {
            assert forall|i: int, j: int| 0 <= i < j < rest.len() implies (
            #[trigger] rest[i]).output != (#[trigger] rest[j]).output by {
                assert(entries[i].output != entries[j].output);
            }
        }
        lemma_without(rest, id);
        let w0 = without(rest, id);
        let w = without(entries, id);
        let last = entries.last();
        assert forall|j: int| 0 <= j < w.len() implies exists|i: int|
            0 <= i < entries.len() && trimmed(entries[i], id) == Some(#[trigger] w[j]) by {
            if j < w0.len() {
                assert(w[j] == w0[j]);
                let i = choose|i: int| 0 <= i < rest.len() && trimmed(rest[i], id) == Some(w0[j]);
                assert(trimmed(entries[i], id) == Some(w[j]));
            } else {
                assert(trimmed(entries[entries.len() - 1], id) == Some(w[j]));
            }
        }
        assert forall|i: int| 0 <= i < entries.len() implies match trimmed(
            #[trigger] entries[i],
            id,
        ) {
            Some(e) => w.contains(e),
            None => true,
        } by {
            if i < rest.len() {
                assert(rest[i] == entries[i]);
                if let Some(e) = trimmed(rest[i], id) {
                    let k = choose|k: int| 0 <= k < w0.len() && w0[k] == e;
                    assert(w[k] == e);
                }
            } else if let Some(e) = trimmed(last, id) {
                assert(w[w.len() - 1] == e);
            }
        }
        assert forall|i: int, j: int| 0 <= i < j < w.len() implies (#[trigger] w[i]).output != (
        #[trigger] w[j]).output by {
            assert(w[i] == w0[i]);
            if j < w0.len() {
                assert(w[j] == w0[j]);
            } else {
                let k = choose|k: int| 0 <= k < rest.len() && trimmed(rest[k], id) == Some(w0[i]);
                assert(entries[k].output != entries[entries.len() - 1].output);
            }
        }
    }
}

/// What trimming a usable view leaves is usable and lacks just that workspace.
pub proof fn lemma_rid(v: ViewModel, id: WorkspaceId)
    requires
        v.wf(),
    ensures
        match rid(v, id) {
            Some(w) => w.wf() && forall|x: WorkspaceId| #[trigger]
                w.ids.contains(x) <==> (x != id && v.ids.contains(x)),
            None => v.ids.len() == 1 && v.ids[0] == id,
        },
{
    lemma_find_from(v.ids, equal_to(id), 0);
    match v.position_of(id) {
        Some(p) => {
            if v.ids.len() > 1 {
                crate::view::lemma_remove_wf(v, p);
            }
        },
        None => {},
    }
}

/// Taking a workspace out of an activity's views trims the view of each output.
pub proof fn lemma_without_view(a: ActivityModel, id: WorkspaceId, o: OutputId)
    requires
        keys_differ(a.views),
    ensures
        a.drop_workspace(id).view_of(o) == match a.view_of(o) {
            Some(v) => rid(v, id),
            None => None,
        },
{
    let b = a.drop_workspace(id);
    lemma_without(a.views, id);
    lemma_find_from(a.views, keyed(o), 0);
    lemma_find_from(b.views, keyed(o), 0);
    if let Some(j) = b.view_pos(o) {
        let i = choose|i: int| 0 <= i < a.views.len() && trimmed(a.views[i], id) == Some(b.views[j]);
        assert(a.views[i].output == o);
        let i0 = a.view_pos(o).unwrap();
        if i0 < i {
            assert(a.views[i0].output != a.views[i].output);
        }
    } else if let Some(i) = a.view_pos(o) {
        if let Some(e) = trimmed(a.views[i], id) {
            let k = choose|k: int| 0 <= k < b.views.len() && b.views[k] == e;
            assert(b.views[k].output == o);
        }
    }
}

/// An activity without workspace `id`: each view is trimmed.
pub proof fn lemma_drop_workspace(pool: PoolModel, a: ActivityModel, id: WorkspaceId)
    requires
        activity_ok(pool, a),
        pool.wf(),
    ensures
        activity_ok(pool.remove(id), a.drop_workspace(id)),
        forall|o: OutputId| #[trigger]
            a.drop_workspace(id).view_of(o) == match a.view_of(o) {
                Some(v) => rid(v, id),
                None => None,
            },
{
    let b = a.drop_workspace(id);
    let q = pool.remove(id);
    lemma_without(a.views, id);
    lemma_get_remove(pool, id);
    assert forall|j: int| 0 <= j < b.views.len() implies view_ok(
        q,
        b.id,
        (#[trigger] b.views[j]).view,
    ) by {
        let i = choose|i: int| 0 <= i < a.views.len() && trimmed(a.views[i], id) == Some(b.views[j]);
        assert(view_ok(pool, a.id, a.views[i].view));
        lemma_rid(a.views[i].view, id);
        assert forall|x: WorkspaceId| #[trigger] b.views[j].view.ids.contains(x) implies q.member(
            x,
            b.id,
        ) by {
            assert(a.views[i].view.ids.contains(x));
            assert(pool.member(x, a.id));
            assert(q.get(x) == pool.get(x));
        }
    }
    assert forall|o: OutputId| #[trigger] b.view_of(o) == match a.view_of(o) {
        Some(v) => rid(v, id),
        None => None,
    } by {
        lemma_without_view(a, id, o);
    }
}

impl LayoutModel {
    /// Workspace `id` gone from the pool and from every view.
    pub open spec fn erase(self, id: WorkspaceId) -> LayoutModel {
        LayoutModel { acts: self.acts.drop_workspace(id), pool: self.pool.remove(id), ..self }
    }
}

/// A workspace that does not wait can go without leaving a trace.
pub proof fn lemma_erase(s: LayoutModel, id: WorkspaceId)
    requires
        s.coherent(),
        !s.parked.contains(id),
    ensures
        s.erase(id).coherent(),
        s.erase(id).acts.ids() == s.acts.ids(),
        forall|x: WorkspaceId| x != id ==> #[trigger] s.erase(id).pool.get(x) == s.pool.get(x),
        !s.erase(id).pool.has(id),
        forall|a: ActivityId, o: OutputId| #[trigger]
            s.erase(id).view_of(a, o) == match s.view_of(a, o) {
                Some(v) => rid(v, id),
                None => None,
            },
{
    let t = s.erase(id);
    lemma_get_remove(s.pool, id);
    assert(t.acts.ids() =~= s.acts.ids());
    lemma_same_ids(s.acts, t.acts);
    assert forall|i: int| 0 <= i < t.acts.list.len() implies activity_ok(
        t.pool,
        #[trigger] t.acts.list[i],
    ) by {
        assert(activity_ok(s.pool, s.acts.list[i]));
        lemma_drop_workspace(s.pool, s.acts.list[i], id);
    }
    assert forall|i: int| 0 <= i < t.pool.items.len() implies member_ok(
        t.acts,
        #[trigger] t.pool.items[i],
    ) by {
        lemma_pos_of(t.pool, i);
        let x = t.pool.items[i].id;
        assert(t.pool.get(x) == Some(t.pool.items[i]));
        if x != id {
            lemma_get(s.pool, x);
            assert(member_ok(s.acts, s.pool.items[s.pool.pos(x).unwrap()]));
        }
    }
    assert(acts_ok(t.acts)) by {
        assert forall|i: int, j: int| 0 <= i < j < t.acts.list.len() implies (
        #[trigger] t.acts.list[i]).id != (#[trigger] t.acts.list[j]).id by {
            assert(s.acts.list[i].id != s.acts.list[j].id);
        }
        assert forall|i: int| 0 <= i < t.acts.list.len() implies (
        #[trigger] t.acts.list[i]).id.0 < t.acts.next by {
            assert(s.acts.list[i].id.0 < s.acts.next);
        }
    }
    assert forall|i: int| 0 <= i < t.parked.len() implies t.pool.has(
        #[trigger] t.parked[i],
    ) by {
        assert(t.parked[i] != id);
        assert(t.pool.get(t.parked[i]) == s.pool.get(t.parked[i]));
    }
    assert forall|a: ActivityId, o: OutputId| #[trigger] t.view_of(a, o) == match s.view_of(
        a,
        o,
    ) {
        Some(v) => rid(v, id),
        None => None,
    } by {
        lemma_act(s.acts, a);
        assert(t.acts.pos(a) == s.acts.pos(a));
        if let Some(i) = s.acts.pos(a) {
            assert(activity_ok(s.pool, s.acts.list[i]));
            lemma_drop_workspace(s.pool, s.acts.list[i], id);
        }
    }
}

/// A workspace gone from the pool and from every view.
pub proof fn lemma_destroy(s: LayoutModel, id: WorkspaceId)
    requires
        s.coherent(),
        s.pool.shared(id) || !s.parked.contains(id),
    ensures
        s.destroy(id).coherent(),
        s.destroy(id).acts.ids() == s.acts.ids(),
        s.pool.shared(id) ==> s.destroy(id) == s,
        !s.pool.shared(id) ==> {
            &&& forall|x: WorkspaceId| x != id ==> #[trigger] s.destroy(id).pool.get(x)
                == s.pool.get(x)
            &&& !s.destroy(id).pool.has(id)
            &&& forall|a: ActivityId, o: OutputId| #[trigger]
                s.destroy(id).view_of(a, o) == match s.view_of(a, o) {
                    Some(v) => rid(v, id),
                    None => None,
                }
        },
{
    if !s.pool.shared(id) {
        lemma_erase(s, id);
    }
}

/// Destroying workspaces keeps the layout coherent.
pub proof fn lemma_destroy_all(s: LayoutModel, ids: Seq<WorkspaceId>)
    requires
        s.coherent(),
        forall|i: int|
            0 <= i < ids.len() ==> s.pool.shared(#[trigger] ids[i]) || !s.parked.contains(ids[i]),
    ensures
        s.destroy_all(ids).coherent(),
        s.destroy_all(ids).acts.ids() == s.acts.ids(),
        forall|x: WorkspaceId|
            #![trigger s.destroy_all(ids).pool.get(x)]
            !ids.contains(x) || s.pool.shared(x) ==> s.destroy_all(ids).pool.get(x)
                == s.pool.get(x),
        forall|x: WorkspaceId| #[trigger] s.destroy_all(ids).pool.has(x) ==> s.pool.has(x)
            && s.destroy_all(ids).pool.get(x) == s.pool.get(x),
    decreases ids.len(),
{
    if ids.len() > 0 {
        let rest = ids.drop_last();
        assert forall|i: int| 0 <= i < rest.len() implies s.pool.shared(#[trigger] rest[i])
            || !s.parked.contains(rest[i]) by {
            assert(rest[i] == ids[i]);
        }
        lemma_destroy_all(s, rest);
        let t = s.destroy_all(rest);
        let id = ids.last();
        crate::reclaim::lemma_destroy_all_leads(s, rest);
        assert(ids[ids.len() - 1] == id);
        assert(t.pool.shared(id) || !t.parked.contains(id)) by {
            if s.pool.shared(id) {
                assert(t.pool.get(id) == s.pool.get(id));
            }
        }
        lemma_destroy(t, id);
        let u = s.destroy_all(ids);
        assert forall|x: WorkspaceId|
            #![trigger u.pool.get(x)]
            !ids.contains(x) || s.pool.shared(x) implies u.pool.get(x) == s.pool.get(x) by {
            if !ids.contains(x) {
                assert(!rest.contains(x)) by {
                    if rest.contains(x) {
                        let k = choose|k: int| 0 <= k < rest.len() && rest[k] == x;
                        assert(ids[k] == x);
                    }
                }
                assert(x != id);
            }
            assert(t.pool.get(x) == s.pool.get(x));
            if t.pool.shared(id) {
            } else if x == id {
                assert(s.pool.shared(x));
                assert(t.pool.shared(x));
            } else {
                assert(u.pool.get(x) == t.pool.get(x));
            }
        }
        assert forall|x: WorkspaceId| #[trigger] u.pool.has(x) implies s.pool.has(x)
            && u.pool.get(x) == s.pool.get(x) by {
            if !t.pool.shared(id) {
                assert(x != id);
                assert(u.pool.get(x) == t.pool.get(x));
            }
            assert(t.pool.has(x));
        }
    }
}

/// A new empty workspace in a view of a live activity keeps the layout coherent.
pub proof fn lemma_mint_into(s: LayoutModel, mon: int, act: ActivityId, pos: int)
    requires
        s.coherent(),
        0 <= mon < s.monitors.len(),
        s.mint_into(mon, act, pos).fits(),
        match s.view_of(act, s.monitors[mon].output.id) {
            Some(v) => 0 <= pos <= v.ids.len(),
            None => true,
        },
    ensures
        s.mint_into(mon, act, pos).coherent(),
        forall|x: WorkspaceId| #[trigger] s.pool.has(x) ==> s.mint_into(mon, act, pos).pool.get(x)
            == s.pool.get(x),
{
    let out = s.monitors[mon].output.id;
    if let Some(v) = s.view_of(act, out) {
        let id = s.pool.next_id();
        let w = WorkspaceModel::fresh(id, out, act);
        let q = s.pool.mint(out, act);
        lemma_act(s.acts, act);
        assert(w.activities[0] == act);
        assert(member_ok(s.acts, w));
        lemma_push(s.pool, w);
        lemma_push_coherent(s, w);
        let s1 = LayoutModel { pool: q, ..s };
        assert(q == PoolModel { items: s.pool.items.push(w), next: s.pool.next + 1 });
        lemma_view_is_ok(s, act, out);
        assert(!v.ids.contains(id)) by {
            if v.ids.contains(id) {
                assert(s.pool.member(id, act));
            }
        }
        crate::view::lemma_insert_wf(v, pos, id);
        assert(view_ok(q, act, v.insert(pos, id))) by {
            assert forall|x: WorkspaceId| #[trigger] v.insert(pos, id).ids.contains(
                x,
            ) implies q.member(x, act) by {
                if x != id {
                    assert(s.pool.member(x, act));
                }
            }
        }
        lemma_with_view_coherent(s1, act, out, v.insert(pos, id));
        let t = s.mint_into(mon, act, pos);
        assert(t.acts == s1.with_view(act, out, v.insert(pos, id)).acts);
        assert forall|x: WorkspaceId| #[trigger] s.pool.has(x) implies t.pool.get(x)
            == s.pool.get(x) by {
            assert(x != id);
        }
    }
}

/// Putting in missing bookends keeps the layout coherent.
pub proof fn lemma_normalize_view(s: LayoutModel, mon: int, act: ActivityId)
    requires
        s.coherent(),
        0 <= mon < s.monitors.len(),
        s.normalize_view(mon, act).fits(),
    ensures
        s.normalize_view(mon, act).coherent(),
        forall|x: WorkspaceId| #[trigger] s.pool.has(x) ==> s.normalize_view(mon, act).pool.get(x)
            == s.pool.get(x),
{
    let m = s.monitors[mon];
    if let Some(v) = s.view_of(act, m.output.id) {
        if v.ids.len() > 0 {
            let lower = if s.pool.busy(v.ids.last()) {
                s.mint_into(mon, act, v.ids.len() as int)
            } else {
                s
            };
            crate::bookends::lemma_mint_into_leads(s, mon, act, v.ids.len() as int);
            crate::bookends::lemma_mint_into_leads(lower, mon, act, 0);
            if s.pool.busy(v.ids.last()) {
                lemma_mint_into(s, mon, act, v.ids.len() as int);
            }
            if m.empty_workspace_above_first && s.pool.busy(v.ids[0]) {
                lemma_mint_into(lower, mon, act, 0);
                assert forall|x: WorkspaceId| #[trigger] s.pool.has(x) implies s.normalize_view(
                    mon,
                    act,
                ).pool.get(x) == s.pool.get(x) by {
                    assert(lower.pool.get(x) == s.pool.get(x));
                    assert(lower.pool.has(x));
                }
            }
        }
    }
}

/// Putting in missing bookends keeps the layout coherent.
pub proof fn lemma_normalize_acts(s: LayoutModel, mon: int, n: int)
    requires
        s.coherent(),
        0 <= mon < s.monitors.len(),
        s.normalize_acts(mon, n).fits(),
    ensures
        s.normalize_acts(mon, n).coherent(),
        forall|x: WorkspaceId| #[trigger] s.pool.has(x) ==> s.normalize_acts(mon, n).pool.get(x)
            == s.pool.get(x),
    decreases n,
{
    if n > 0 {
        let t = s.normalize_acts(mon, n - 1);
        let act = s.acts.list[n - 1].id;
        crate::bookends::lemma_normalize_acts_leads(s, mon, n - 1, n - 1);
        crate::bookends::lemma_normalize_view_leads(t, mon, act);
        lemma_normalize_acts(s, mon, n - 1);
        lemma_normalize_view(t, mon, act);
        assert forall|x: WorkspaceId| #[trigger] s.pool.has(x) implies s.normalize_acts(
            mon,
            n,
        ).pool.get(x) == s.pool.get(x) by {
            assert(t.pool.get(x) == s.pool.get(x));
            assert(t.pool.has(x));
        }
    }
}

/// Putting in missing bookends keeps the layout coherent.
pub proof fn lemma_normalize_mons(s: LayoutModel, n: int)
    requires
        s.coherent(),
        n <= s.monitors.len(),
        s.normalize_mons(n).fits(),
    ensures
        s.normalize_mons(n).coherent(),
        forall|x: WorkspaceId| #[trigger] s.pool.has(x) ==> s.normalize_mons(n).pool.get(x)
            == s.pool.get(x),
    decreases n,
{
    if n > 0 {
        let t = s.normalize_mons(n - 1);
        let k = s.acts.list.len() as int;
        crate::bookends::lemma_normalize_mons_leads(s, n - 1, n - 1);
        crate::bookends::lemma_normalize_acts_leads(t, n - 1, 0, k);
        lemma_normalize_mons(s, n - 1);
        lemma_normalize_acts(t, n - 1, k);
        assert forall|x: WorkspaceId| #[trigger] s.pool.has(x) implies s.normalize_mons(
            n,
        ).pool.get(x) == s.pool.get(x) by {
            assert(t.pool.get(x) == s.pool.get(x));
            assert(t.pool.has(x));
        }
    }
}

/// Putting in missing bookends keeps the layout coherent, and never removes, renames or reassigns
/// a workspace.
pub proof fn law_normalize_adds_only(s: LayoutModel)
    requires
        s.coherent(),
        s.normalize().fits(),
    ensures
        s.normalize().coherent(),
        forall|x: WorkspaceId| #[trigger] s.pool.has(x) ==> s.normalize().pool.get(x)
            == s.pool.get(x),
{
    lemma_normalize_mons(s, s.monitors.len() as int);
}

} // verus!
