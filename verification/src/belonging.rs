//! A workspace always belongs to some activity, and is shown by those it belongs to alone.

use vstd::prelude::*;

use crate::activity::holding;
use crate::coherence::{
    activity_ok, lemma_act, lemma_drop_view_coherent, lemma_get, lemma_get_put, lemma_same_ids,
    lemma_view_is_ok, lemma_with_view_coherent, member_ok, view_ok,
};
use crate::cores::{
    calm, lemma_calm_still, lemma_calm_trans, lemma_destroy_calm, lemma_same_work_trans, same_work,
};
use crate::disconnecting::lemma_drop_view_views;
use crate::ids::{ActivityId, OutputId, WorkspaceId};
use crate::keeping::law_normalize_adds_only;
use crate::keeping_views::{
    lemma_collapse, lemma_ensure_all, lemma_install_into, lemma_reclaim,
};
use crate::layout::LayoutModel;
use crate::membership::{absent_from, distinct};
use crate::pool::PoolModel;
use crate::reclaim::{doubled, out_of_place};
use crate::reconcile::Stray;
use crate::search::{equal_to, find, lemma_find_from};
use crate::switching::other_than;
use crate::transfer::{lemma_view_after_set, lemma_view_after_set_other};
use crate::workspace::{Output, WorkspaceModel};

verus! {

/// Giving a workspace activities that exist, among them all that show it, keeps the layout
/// coherent.
pub proof fn lemma_set_activities(s: LayoutModel, id: WorkspaceId, new: Seq<ActivityId>)
    requires
        s.coherent(),
        s.pool.has(id),
        new.len() > 0,
        forall|a: ActivityId| #[trigger] new.contains(a) ==> s.acts.has(a),
        forall|a: ActivityId, o: OutputId| #[trigger] s.shows_on(a, o, id) ==> new.contains(a),
    ensures
        (LayoutModel { pool: s.pool.set_activities(id, new), ..s }).coherent(),
{
    let w = s.pool.get(id).unwrap();
    lemma_get(s.pool, id);
    let v = WorkspaceModel { activities: new, ..w };
    lemma_get_put(s.pool, id, v);
    let q = s.pool.set_activities(id, new);
    let t = LayoutModel { pool: q, ..s };
    assert(q == s.pool.put(id, v));
    let k = s.pool.pos(id).unwrap();
    assert forall|i: int| 0 <= i < q.items.len() implies member_ok(
        t.acts,
        #[trigger] q.items[i],
    ) by {
        if i != k {
            assert(member_ok(s.acts, s.pool.items[i]));
            assert(q.items[i] == s.pool.items[i]);
        }
    }
    assert(q.wf()) by {
        assert forall|i: int, j: int| 0 <= i < j < q.items.len() implies (
        #[trigger] q.items[i]).id.0 < (#[trigger] q.items[j]).id.0 by {
            assert(s.pool.items[i].id.0 < s.pool.items[j].id.0);
        }
        assert forall|i: int| 0 <= i < q.items.len() implies (#[trigger] q.items[i]).id.0
            < q.next by {
            assert(s.pool.items[i].id.0 < s.pool.next);
        }
    }
    assert forall|i: int| 0 <= i < t.acts.list.len() implies activity_ok(
        q,
        #[trigger] t.acts.list[i],
    ) by {
        let a = s.acts.list[i];
        assert(activity_ok(s.pool, a));
        crate::coherence::lemma_act_pos(s.acts, i);
        assert forall|j: int| 0 <= j < a.views.len() implies view_ok(
            q,
            a.id,
            (#[trigger] a.views[j]).view,
        ) by {
            let e = a.views[j];
            assert(view_ok(s.pool, a.id, e.view));
            assert forall|x: WorkspaceId| #[trigger] e.view.ids.contains(x) implies q.member(
                x,
                a.id,
            ) by {
                assert(s.pool.member(x, a.id));
                if x == id {
                    lemma_entry_is_view(s, i, j);
                    assert(s.shows_on(a.id, e.output, id));
                } else {
                    assert(q.get(x) == s.pool.get(x));
                }
            }
        }
    }
    assert forall|i: int| 0 <= i < t.parked.len() implies q.has(#[trigger] t.parked[i]) by {
        assert(s.pool.has(s.parked[i]));
        assert(q.pos(t.parked[i]) == s.pool.pos(t.parked[i]));
    }
}

/// An entry is what its activity shows on its output.
pub proof fn lemma_entry_is_view(s: LayoutModel, i: int, j: int)
    requires
        s.coherent(),
        0 <= i < s.acts.list.len(),
        0 <= j < s.acts.list[i].views.len(),
    ensures
        s.view_of(s.acts.list[i].id, s.acts.list[i].views[j].output) == Some(
            s.acts.list[i].views[j].view,
        ),
{
    let a = s.acts.list[i];
    assert(activity_ok(s.pool, a));
    crate::coherence::lemma_act_pos(s.acts, i);
    let out = a.views[j].output;
    lemma_find_from(a.views, crate::activity::keyed(out), 0);
    let k = a.view_pos(out).unwrap();
    assert(a.views[k].output == out);
    assert(k == j);
}

/// Taking a workspace out of one view keeps the layout coherent and touches no other view.
pub proof fn lemma_unshow(s: LayoutModel, w: Stray)
    requires
        s.coherent(),
    ensures
        s.unshow(w).coherent(),
        s.unshow(w).pool == s.pool,
        s.unshow(w).acts.ids() == s.acts.ids(),
        !s.unshow(w).shows_on(w.act, w.output, w.id),
        forall|a: ActivityId, o: OutputId|
            a != w.act || o != w.output ==> #[trigger] s.unshow(w).view_of(a, o) == s.view_of(a, o),
{
    crate::membership::lemma_unshow_leads(s, w);
    if let Some(v) = s.view_of(w.act, w.output) {
        lemma_view_is_ok(s, w.act, w.output);
        lemma_find_from(v.ids, equal_to(w.id), 0);
        if let Some(p) = v.position_of(w.id) {
            if v.ids.len() == 1 {
                lemma_drop_view_coherent(s, w.act, w.output);
                lemma_drop_view_views(s, w.act, w.output);
            } else {
                let u = v.remove_at(p);
                crate::view::lemma_remove_wf(v, p);
                assert(view_ok(s.pool, w.act, u)) by {
                    assert forall|x: WorkspaceId| #[trigger] u.ids.contains(
                        x,
                    ) implies s.pool.member(x, w.act) by {
                        let k = choose|k: int| 0 <= k < u.ids.len() && u.ids[k] == x;
                        assert(v.ids.contains(v.ids[if k < p {
                            k
                        } else {
                            k + 1
                        }]));
                    }
                }
                lemma_with_view_coherent(s, w.act, w.output, u);
                lemma_view_after_set(s.acts, w.act, w.output, u);
                assert forall|a: ActivityId, o: OutputId|
                    a != w.act || o != w.output implies #[trigger] s.unshow(w).view_of(a, o)
                    == s.view_of(a, o) by {
                    lemma_view_after_set_other(s.acts, w.act, w.output, u, a, o);
                }
                assert(!u.ids.contains(w.id)) by {
                    if u.ids.contains(w.id) {
                        let k = choose|k: int| 0 <= k < u.ids.len() && u.ids[k] == w.id;
                        let l = if k < p {
                            k
                        } else {
                            k + 1
                        };
                        assert(v.ids[l] == v.ids[p]);
                    }
                }
            }
        } else {
            assert(!v.ids.contains(w.id)) by {
                if v.ids.contains(w.id) {
                    let k = choose|k: int| 0 <= k < v.ids.len() && v.ids[k] == w.id;
                    assert(v.ids[k] == w.id);
                }
            }
        }
    }
}

/// Where an activity shows a workspace.
pub proof fn lemma_stray(s: LayoutModel, act: ActivityId, id: WorkspaceId)
    requires
        s.coherent(),
    ensures
        match s.stray(act, id) {
            Some(w) => w.act == act && w.id == id && s.shows_on(act, w.output, id),
            None => forall|o: OutputId| !(#[trigger] s.shows_on(act, o, id)),
        },
{
    lemma_act(s.acts, act);
    if let Some(a) = s.acts.get(act) {
        let i = s.acts.pos(act).unwrap();
        lemma_find_from(a.views, holding(id), 0);
        match find(a.views, holding(id)) {
            Some(k) => {
                lemma_entry_is_view(s, i, k);
                lemma_find_from(a.views[k].view.ids, equal_to(id), 0);
            },
            None => {
                assert forall|o: OutputId| !(#[trigger] s.shows_on(act, o, id)) by {
                    if s.shows_on(act, o, id) {
                        lemma_find_from(a.views, crate::activity::keyed(o), 0);
                        let j = a.view_pos(o).unwrap();
                        let v = a.views[j].view;
                        lemma_find_from(v.ids, equal_to(id), 0);
                        let n = choose|n: int| 0 <= n < v.ids.len() && v.ids[n] == id;
                        assert(v.ids[n] == id);
                        assert(holding(id)(a.views[j]));
                    }
                }
            },
        }
    }
}

/// Reclaiming a workspace is calm.
pub proof fn lemma_reclaim_calm(s: LayoutModel, id: WorkspaceId, o: Output)
    requires
        s.coherent(),
        s.monitors.len() > 0,
    ensures
        calm(s, s.reclaim(id), o),
{
    let t = s.reclaim(id);
    lemma_calm_still(s, s, o);
    if s.pool.exclusive(id) && !s.pool.busy(id) {
        let act = s.pool.get(id).unwrap().activities[0];
        if let Some(e) = s.holding_entry(act, id) {
            if out_of_place(
                e.view,
                e.view.position_of(id).unwrap(),
                s.leading_empty(e.output),
            ) {
                if act == s.acts.active {
                    let u = s.snap_output(e.output);
                    lemma_calm_still(s, u, o);
                    lemma_destroy_calm(u, id, o);
                    lemma_calm_trans(s, u, t, o);
                } else {
                    lemma_destroy_calm(s, id, o);
                }
            }
        }
    }
}

/// Collapsing a view is calm.
pub proof fn lemma_collapse_calm(s: LayoutModel, act: ActivityId, out: OutputId, o: Output)
    requires
        s.coherent(),
        s.monitors.len() > 0,
    ensures
        calm(s, s.collapse(act, out), o),
{
    let t = s.collapse(act, out);
    lemma_calm_still(s, s, o);
    if let Some(v) = s.view_of(act, out) {
        if v.ids.len() == 2 && s.pool.has(v.ids[0]) && doubled(s.pool, v, s.leading_empty(out)) {
            if act == s.acts.active {
                let u = s.snap_output(out);
                lemma_calm_still(s, u, o);
                lemma_destroy_calm(u, v.ids[1], o);
                lemma_calm_trans(s, u, t, o);
            } else {
                lemma_destroy_calm(s, v.ids[1], o);
            }
        }
    }
}

/// Opening missing views changes no work.
pub proof fn lemma_ensure_row_work(s: LayoutModel, act: ActivityId, n: int, o: Output)
    requires
        s.coherent(),
        s.ensure_row(act, n).fits(),
    ensures
        same_work(s.pool, s.ensure_row(act, n).pool, o),
    decreases n,
{
    if n <= 0 {
        lemma_calm_still(s, s, o);
    } else {
        crate::materialize::lemma_ensure_row_leads(s, act, n - 1, n);
        lemma_ensure_row_work(s, act, n - 1, o);
        crate::keeping_views::lemma_ensure_row(s, act, n - 1);
        let t = s.ensure_row(act, n - 1);
        let u = s.ensure_row(act, n);
        let out = t.monitors[n - 1].output.id;
        if t.view_of(act, out) is None && t.acts.has(act) {
            crate::connecting::lemma_open_view_exact(t, n - 1, act);
            let t1 = LayoutModel { pool: t.pool.mint(out, act), ..t };
            crate::keeping_views::lemma_mint(t, out, act);
            crate::connecting::lemma_mint_work(t, out, act, o);
            if u.pool != t1.pool {
                crate::connecting::lemma_mint_work(t1, out, act, o);
                lemma_same_work_trans(t.pool, t1.pool, u.pool, o);
            }
            lemma_same_work_trans(s.pool, t.pool, u.pool, o);
        }
    }
}

/// Opening missing views changes no work.
pub proof fn lemma_ensure_rows_work(s: LayoutModel, n: int, o: Output)
    requires
        s.coherent(),
        s.ensure_rows(n).fits(),
    ensures
        same_work(s.pool, s.ensure_rows(n).pool, o),
    decreases n,
{
    if n <= 0 {
        lemma_calm_still(s, s, o);
    } else {
        crate::materialize::lemma_ensure_rows_leads(s, n - 1, n);
        lemma_ensure_rows_work(s, n - 1, o);
        crate::keeping_views::lemma_ensure_rows(s, n - 1);
        let t = s.ensure_rows(n - 1);
        lemma_ensure_row_work(t, s.acts.list[n - 1].id, s.monitors.len() as int, o);
        lemma_same_work_trans(s.pool, t.pool, s.ensure_rows(n).pool, o);
    }
}

impl LayoutModel {
    /// Workspace `id` taken out of the view in which activity `act` shows it.
    pub open spec fn hidden_from(self, act: ActivityId, id: WorkspaceId) -> LayoutModel {
        match self.stray(act, id) {
            Some(w) => self.unshow(w),
            None => self,
        }
    }

    /// The workspace animations that parting from activity `act` ends, ended.
    pub open spec fn snapped_for(self, act: ActivityId) -> LayoutModel {
        if act == self.acts.active {
            self.snap_all()
        } else {
            self
        }
    }
}

/// Once an activity was asked to stop showing a workspace, it shows it nowhere.
pub proof fn lemma_unshown(s: LayoutModel, act: ActivityId, id: WorkspaceId)
    requires
        s.coherent(),
        s.shown_once(),
    ensures
        ({
            let t = s.hidden_from(act, id);
            &&& t.coherent()
            &&& t.pool == s.pool
            &&& t.acts.ids() == s.acts.ids()
            &&& forall|o: OutputId| !(#[trigger] t.shows_on(act, o, id))
            &&& forall|a: ActivityId, o: OutputId|
                a != act ==> #[trigger] t.view_of(a, o) == s.view_of(a, o)
        }),
{
    lemma_stray(s, act, id);
    if let Some(w) = s.stray(act, id) {
        lemma_unshow(s, w);
        let t = s.unshow(w);
        assert forall|o: OutputId| !(#[trigger] t.shows_on(act, o, id)) by {
            if o != w.output {
                assert(t.view_of(act, o) == s.view_of(act, o));
                if t.shows_on(act, o, id) {
                    assert(s.shows_on(act, o, id));
                }
            }
        }
    }
}

/// Giving a workspace one more activity keeps the layout coherent.
pub proof fn lemma_joined(s: LayoutModel, id: WorkspaceId, act: ActivityId)
    requires
        s.coherent(),
        s.pool.has(id),
        s.acts.has(act),
    ensures
        ({
            let q = s.pool.set_activities(id, s.activities_of(id).push(act));
            &&& (LayoutModel { pool: q, ..s }).coherent()
            &&& q.member(id, act)
            &&& q.busy(id) == s.pool.busy(id)
            &&& forall|a: ActivityId| #[trigger] s.pool.member(id, a) ==> q.member(id, a)
            &&& forall|x: WorkspaceId| x != id ==> #[trigger] q.get(x) == s.pool.get(x)
        }),
{
    let old = s.activities_of(id);
    let new = old.push(act);
    assert(new[old.len() as int] == act);
    assert forall|a: ActivityId| #[trigger] old.contains(a) implies new.contains(a) by {
        let k = choose|k: int| 0 <= k < old.len() && old[k] == a;
        assert(new[k] == a);
    }
    lemma_get(s.pool, id);
    assert(member_ok(s.acts, s.pool.items[s.pool.pos(id).unwrap()]));
    assert forall|a: ActivityId| #[trigger] new.contains(a) implies s.acts.has(a) by {
        let k = choose|k: int| 0 <= k < new.len() && new[k] == a;
        if k < old.len() {
            assert(old[k] == a);
            assert(old.contains(a));
        }
    }
    assert forall|a: ActivityId, o: OutputId| #[trigger] s.shows_on(a, o, id) implies new.contains(
        a,
    ) by {
        lemma_view_is_ok(s, a, o);
        assert(s.pool.member(id, a));
    }
    lemma_set_activities(s, id, new);
    let w = s.pool.get(id).unwrap();
    lemma_get_put(s.pool, id, WorkspaceModel { activities: new, ..w });
}

/// A workspace that is added to an activity keeps its windows and its name.
pub proof fn lemma_joined_busy(s: LayoutModel, id: WorkspaceId, act: ActivityId)
    requires
        s.coherent(),
        s.pool.has(id),
        s.acts.has(act),
        s.join(id, act).fits(),
    ensures
        s.join(id, act).pool.busy(id) == s.pool.busy(id),
        s.join(id, act).pool.has(id),
{
    let old = s.activities_of(id);
    if !old.contains(act) {
        let s1 = LayoutModel { pool: s.pool.set_activities(id, old.push(act)), ..s };
        lemma_joined(s, id, act);
        if let Some(out) = s.holding_output(id) {
            crate::membership::lemma_enlist_leads(s1, act, out, id, true);
            lemma_enlist(s1, act, out, id, true);
            let s2 = s1.enlist(act, out, id, true);
            if s2.pool.busy(id) && s2.monitor_pos(out) is Some {
                law_normalize_adds_only(s2);
                assert(s2.pool.has(id));
            }
        }
    }
}

/// A workspace that is added to an activity belongs to it besides all those it belonged to, and no
/// other workspace changes.
pub proof fn law_joining_adds_only(s: LayoutModel, id: WorkspaceId, act: ActivityId)
    requires
        s.coherent(),
        s.pool.has(id),
        s.acts.has(act),
        s.join(id, act).fits(),
    ensures
        s.join(id, act).coherent(),
        s.join(id, act).pool.member(id, act),
        forall|a: ActivityId| #[trigger]
            s.pool.member(id, a) ==> s.join(id, act).pool.member(id, a),
        forall|x: WorkspaceId| #[trigger]
            s.pool.has(x) && x != id ==> s.join(id, act).pool.get(x) == s.pool.get(x),
{
    let old = s.activities_of(id);
    if !old.contains(act) {
        lemma_joined(s, id, act);
        let s1 = LayoutModel { pool: s.pool.set_activities(id, old.push(act)), ..s };
        if let Some(out) = s.holding_output(id) {
            crate::membership::lemma_enlist_leads(s1, act, out, id, true);
            lemma_enlist(s1, act, out, id, true);
            let s2 = s1.enlist(act, out, id, true);
            if s2.pool.busy(id) && s2.monitor_pos(out) is Some {
                law_normalize_adds_only(s2);
                assert(s2.pool.has(id));
                assert(s2.normalize().pool.get(id) == s2.pool.get(id));
            }
            assert forall|x: WorkspaceId| #[trigger] s.pool.has(x) && x != id implies s.join(
                id,
                act,
            ).pool.get(x) == s.pool.get(x) by {
                assert(s1.pool.get(x) == s.pool.get(x));
                assert(s2.pool.has(x));
            }
        }
    }
}

/// Showing a workspace to an activity it belongs to keeps the layout coherent.
pub proof fn lemma_enlist(s: LayoutModel, act: ActivityId, out: OutputId, id: WorkspaceId, shift: bool)
    requires
        s.coherent(),
        s.pool.member(id, act),
    ensures
        s.enlist(act, out, id, shift).coherent(),
{
    lemma_find_from(s.monitors, crate::layout::on_output(out), 0);
    lemma_install_into(s, act, out, id);
}

/// A workspace that is removed from an activity belongs to all the others it belonged to, and is
/// not shown by that one any more. Nothing with windows or a name changes otherwise.
pub proof fn law_parting_removes_only(s: LayoutModel, id: WorkspaceId, act: ActivityId, o: Output)
    requires
        s.coherent(),
        s.shown_once(),
        s.monitors.len() > 0,
        s.pool.has(id),
        exists|b: ActivityId| b != act && #[trigger] s.pool.member(id, b),
        s.part(id, act).fits(),
    ensures
        s.part(id, act).coherent(),
        same_work(
            s.pool.set_activities(id, s.activities_of(id).filter(other_than(act))),
            s.part(id, act).pool,
            o,
        ),
        forall|out: OutputId| s.pool.busy(id) ==> !(#[trigger] s.part(id, act).shows_on(
            act,
            out,
            id,
        )),
{
    let old = s.activities_of(id);
    let new = old.filter(other_than(act));
    let s1 = s.snapped_for(act);
    assert(s1.coherent());
    let q = s.pool.set_activities(id, new);
    let s2 = LayoutModel { pool: q, ..s1 };
    assert(s1.shown_once()) by {
        assert forall|a: ActivityId, o1: OutputId, o2: OutputId, x: WorkspaceId|
            o1 != o2 && #[trigger] s1.shows_on(a, o1, x) implies !(#[trigger] s1.shows_on(
            a,
            o2,
            x,
        )) by {
            assert(s.shows_on(a, o1, x) == s1.shows_on(a, o1, x));
            assert(s.shows_on(a, o2, x) == s1.shows_on(a, o2, x));
        }
    }
    lemma_unshown(s1, act, id);
    let u = s1.hidden_from(act, id);
    lemma_filter_acts(old, other_than(act));
    let w0 = s.pool.get(id).unwrap();
    lemma_get(s.pool, id);
    lemma_get_put(s.pool, id, WorkspaceModel { activities: new, ..w0 });
    assert(q.get(id) == Some(WorkspaceModel { activities: new, ..w0 }));
    assert(!new.contains(act));
    let b = choose|b: ActivityId| b != act && #[trigger] s.pool.member(id, b);
    assert(new.contains(b));
    assert(member_ok(s.acts, s.pool.items[s.pool.pos(id).unwrap()]));
    lemma_same_ids(s1.acts, u.acts);
    assert forall|a: ActivityId| #[trigger] new.contains(a) implies u.acts.has(a) by {
        assert(old.contains(a));
        assert(s1.acts.has(a));
    }
    assert forall|a: ActivityId, out: OutputId| #[trigger] u.shows_on(a, out, id) implies new.contains(
        a,
    ) by {
        if a == act {
            assert(!u.shows_on(act, out, id));
        }
        lemma_view_is_ok(u, a, out);
        assert(u.pool.member(id, a));
    }
    lemma_set_activities(u, id, new);
    let p = LayoutModel { pool: q, ..u };
    assert(p.coherent());
    assert(s2.hidden_from(act, id) == p);
    lemma_part_rest(s, s2, p, id, act, o);
}

/// The last steps of removing a workspace from an activity.
pub proof fn lemma_part_rest(
    s: LayoutModel,
    s2: LayoutModel,
    p: LayoutModel,
    id: WorkspaceId,
    act: ActivityId,
    o: Output,
)
    requires
        p.coherent(),
        p.monitors.len() > 0,
        s.part(id, act).fits(),
        s2 == (LayoutModel {
            pool: s.pool.set_activities(id, s.activities_of(id).filter(other_than(act))),
            ..s.snapped_for(act)
        }),
        p == s2.hidden_from(act, id),
        !p.pool.member(id, act),
    ensures
        s.part(id, act).coherent(),
        same_work(p.pool, s.part(id, act).pool, o),
        forall|out: OutputId| p.pool.busy(id) ==> !(#[trigger] s.part(id, act).shows_on(
            act,
            out,
            id,
        )),
{
    let t = s.part(id, act);
    let p2 = match s2.stray(act, id) {
        Some(w) => {
            if s2.empties(w) {
                p.ensure_all()
            } else if s2.thins(w) {
                p.collapse(act, w.output)
            } else {
                p
            }
        },
        None => p,
    };
    assert(t == p2.reclaim(id));
    crate::reclaim::lemma_reclaim_leads(p2, id);
    lemma_calm_still(p, p, o);
    if p2 == p {
    } else if p2 == p.ensure_all() {
        lemma_ensure_all(p);
        lemma_ensure_rows_work(p, p.acts.list.len() as int, o);
        crate::materialize::lemma_ensure_rows_leads(p, 0, p.acts.list.len() as int);
    } else {
        let w = s2.stray(act, id).unwrap();
        lemma_collapse(p, act, w.output);
        lemma_collapse_calm(p, act, w.output, o);
        crate::reclaim::lemma_collapse_leads(p, act, w.output);
    }
    assert(same_work(p.pool, p2.pool, o));
    assert(p2.coherent());
    assert(p2.monitors.len() > 0);
    lemma_reclaim(p2, id);
    lemma_reclaim_calm(p2, id, o);
    lemma_same_work_trans(p.pool, p2.pool, t.pool, o);
    assert forall|out: OutputId| p.pool.busy(id) implies !(#[trigger] t.shows_on(act, out, id)) by {
        assert(t.pool.busy(id) == p.pool.busy(id));
        lemma_view_is_ok(t, act, out);
        if t.shows_on(act, out, id) {
            assert(t.pool.member(id, act));
        }
    }
}

/// A filter of activities picks what it says.
pub proof fn lemma_filter_acts(s: Seq<ActivityId>, p: spec_fn(ActivityId) -> bool)
    ensures
        forall|a: ActivityId| #[trigger] s.filter(p).contains(a) <==> (s.contains(a) && p(a)),
    decreases s.len(),
{
    reveal(Seq::filter);
    if s.len() > 0 {
        let rest = s.drop_last();
        lemma_filter_acts(rest, p);
        let f = rest.filter(p);
        let g = s.filter(p);
        assert forall|a: ActivityId| #[trigger] g.contains(a) <==> (s.contains(a) && p(a)) by {
            if g.contains(a) {
                let k = choose|k: int| 0 <= k < g.len() && g[k] == a;
                if k < f.len() {
                    assert(f[k] == a);
                    assert(f.contains(a));
                    let l = choose|l: int| 0 <= l < rest.len() && rest[l] == a;
                    assert(s[l] == a);
                } else {
                    assert(s[s.len() - 1] == a);
                }
            }
            if s.contains(a) && p(a) {
                let k = choose|k: int| 0 <= k < s.len() && s[k] == a;
                if k < rest.len() {
                    assert(rest[k] == a);
                    assert(rest.contains(a));
                    assert(f.contains(a));
                    let l = choose|l: int| 0 <= l < f.len() && f[l] == a;
                    assert(g[l] == a);
                } else {
                    assert(g[g.len() - 1] == a);
                }
            }
        }
    }
}

/// Replacing a view by one with at most one more workspace, which the activity shows nowhere, keeps
/// every workspace shown once.
pub proof fn lemma_grown_once(
    s: LayoutModel,
    t: LayoutModel,
    act: ActivityId,
    out: OutputId,
    id: WorkspaceId,
)
    requires
        s.shown_once(),
        forall|o: OutputId| !(#[trigger] s.shows_on(act, o, id)),
        forall|a: ActivityId, o: OutputId|
            a != act || o != out ==> #[trigger] t.view_of(a, o) == s.view_of(a, o),
        forall|x: WorkspaceId| #[trigger]
            t.shows_on(act, out, x) ==> x == id || s.shows_on(act, out, x),
    ensures
        t.shown_once(),
{
    assert forall|a: ActivityId, o1: OutputId, o2: OutputId, x: WorkspaceId|
        o1 != o2 && #[trigger] t.shows_on(a, o1, x) implies !(#[trigger] t.shows_on(
        a,
        o2,
        x,
    )) by {
        if a != act || o1 != out {
            assert(t.view_of(a, o1) == s.view_of(a, o1));
            assert(s.shows_on(a, o1, x));
        }
        if a != act || o2 != out {
            assert(t.view_of(a, o2) == s.view_of(a, o2));
        }
        if t.shows_on(a, o2, x) {
            if a == act && o1 == out {
                assert(s.shows_on(act, o2, x));
                assert(x == id || s.shows_on(act, out, x));
            } else if a == act && o2 == out {
                assert(s.shows_on(act, o1, x));
                assert(x == id || s.shows_on(act, out, x));
            } else {
                assert(s.shows_on(a, o2, x));
            }
        }
    }
}

/// Putting in a new empty workspace keeps every workspace shown once.
pub proof fn lemma_mint_into_once(s: LayoutModel, mon: int, act: ActivityId, pos: int)
    requires
        s.coherent(),
        s.shown_once(),
        0 <= mon < s.monitors.len(),
        s.mint_into(mon, act, pos).fits(),
        match s.view_of(act, s.monitors[mon].output.id) {
            Some(v) => 0 <= pos <= v.ids.len(),
            None => true,
        },
    ensures
        s.mint_into(mon, act, pos).shown_once(),
{
    let out = s.monitors[mon].output.id;
    if let Some(v) = s.view_of(act, out) {
        let id = s.pool.next_id();
        lemma_act(s.acts, act);
        crate::keeping_views::lemma_mint(s, out, act);
        let u = v.insert(pos, id);
        let t = s.mint_into(mon, act, pos);
        lemma_view_after_set(s.acts, act, out, u);
        assert forall|o: OutputId| !(#[trigger] s.shows_on(act, o, id)) by {
            lemma_view_is_ok(s, act, o);
            if s.shows_on(act, o, id) {
                assert(s.pool.member(id, act));
            }
        }
        assert forall|a: ActivityId, o: OutputId| a != act || o != out implies #[trigger] t.view_of(
            a,
            o,
        ) == s.view_of(a, o) by {
            lemma_view_after_set_other(s.acts, act, out, u, a, o);
        }
        assert forall|x: WorkspaceId| #[trigger] t.shows_on(act, out, x) implies x == id
            || s.shows_on(act, out, x) by {
            crate::disconnecting::lemma_insert_contains(v.ids, pos, id, x);
        }
        lemma_grown_once(s, t, act, out, id);
    }
}

/// Putting in missing bookends keeps every workspace shown once.
pub proof fn lemma_normalize_view_once(s: LayoutModel, mon: int, act: ActivityId)
    requires
        s.coherent(),
        s.shown_once(),
        0 <= mon < s.monitors.len(),
        s.normalize_view(mon, act).fits(),
    ensures
        s.normalize_view(mon, act).shown_once(),
{
    let m = s.monitors[mon];
    if let Some(v) = s.view_of(act, m.output.id) {
        if v.ids.len() > 0 {
            let n = v.ids.len() as int;
            let low = s.pool.busy(v.ids.last());
            let lower = if low {
                s.mint_into(mon, act, n)
            } else {
                s
            };
            crate::bookends::lemma_mint_into_leads(s, mon, act, n);
            crate::bookends::lemma_mint_into_leads(lower, mon, act, 0);
            if low {
                crate::keeping::lemma_mint_into(s, mon, act, n);
                lemma_mint_into_once(s, mon, act, n);
            }
            if m.empty_workspace_above_first && s.pool.busy(v.ids[0]) {
                lemma_mint_into_once(lower, mon, act, 0);
            }
        }
    }
}

/// Putting in missing bookends keeps every workspace shown once.
pub proof fn lemma_normalize_acts_once(s: LayoutModel, mon: int, n: int)
    requires
        s.coherent(),
        s.shown_once(),
        0 <= mon < s.monitors.len(),
        s.normalize_acts(mon, n).fits(),
    ensures
        s.normalize_acts(mon, n).shown_once(),
    decreases n,
{
    if n > 0 {
        let t = s.normalize_acts(mon, n - 1);
        let act = s.acts.list[n - 1].id;
        crate::bookends::lemma_normalize_acts_leads(s, mon, n - 1, n - 1);
        crate::bookends::lemma_normalize_view_leads(t, mon, act);
        lemma_normalize_acts_once(s, mon, n - 1);
        crate::keeping::lemma_normalize_acts(s, mon, n - 1);
        lemma_normalize_view_once(t, mon, act);
    }
}

/// Putting in missing bookends keeps every workspace shown once.
pub proof fn lemma_normalize_mons_once(s: LayoutModel, n: int)
    requires
        s.coherent(),
        s.shown_once(),
        n <= s.monitors.len(),
        s.normalize_mons(n).fits(),
    ensures
        s.normalize_mons(n).shown_once(),
    decreases n,
{
    if n > 0 {
        let t = s.normalize_mons(n - 1);
        let k = s.acts.list.len() as int;
        crate::bookends::lemma_normalize_mons_leads(s, n - 1, n - 1);
        crate::bookends::lemma_normalize_acts_leads(t, n - 1, k, k);
        lemma_normalize_mons_once(s, n - 1);
        crate::keeping::lemma_normalize_mons(s, n - 1);
        lemma_normalize_acts_once(t, n - 1, k);
    }
}

/// Showing a workspace to one more activity keeps every workspace shown once.
pub proof fn lemma_enlist_once(s: LayoutModel, act: ActivityId, out: OutputId, id: WorkspaceId, shift: bool)
    requires
        s.coherent(),
        s.shown_once(),
        s.pool.member(id, act),
    ensures
        s.enlist(act, out, id, shift).shown_once(),
{
    let t = s.enlist(act, out, id, shift);
    lemma_stray(s, act, id);
    lemma_act(s.acts, act);
    if let Some(a) = s.acts.get(act) {
        if a.output_of(id) is None {
            assert(s.stray(act, id) is None);
            if let Some(v) = s.view_of(act, out) {
                lemma_find_from(v.ids, equal_to(id), 0);
                if v.position_of(id) is None {
                    let pos = crate::transfer::landing(s.pool, v, id);
                    let u = v.insert(pos, id);
                    lemma_view_is_ok(s, act, out);
                    lemma_view_after_set(s.acts, act, out, u);
                    assert(t.acts == s.acts.set_view(act, out, u));
                    assert forall|b: ActivityId, o: OutputId| b != act || o != out implies
                        #[trigger] t.view_of(b, o) == s.view_of(b, o) by {
                        lemma_view_after_set_other(s.acts, act, out, u, b, o);
                    }
                    assert forall|x: WorkspaceId| #[trigger] t.shows_on(act, out, x) implies x
                        == id || s.shows_on(act, out, x) by {
                        crate::disconnecting::lemma_insert_contains(v.ids, pos, id, x);
                    }
                    lemma_grown_once(s, t, act, out, id);
                } else {
                    lemma_same_once(s, t);
                }
            } else {
                lemma_same_once(s, t);
            }
        }
    }
}

/// The same views show every workspace once.
pub proof fn lemma_same_once(s: LayoutModel, t: LayoutModel)
    requires
        s.shown_once(),
        t.acts == s.acts,
    ensures
        t.shown_once(),
{
    assert forall|a: ActivityId, o1: OutputId, o2: OutputId, x: WorkspaceId|
        o1 != o2 && #[trigger] t.shows_on(a, o1, x) implies !(#[trigger] t.shows_on(
        a,
        o2,
        x,
    )) by {
        assert(s.shows_on(a, o1, x) == t.shows_on(a, o1, x));
        assert(s.shows_on(a, o2, x) == t.shows_on(a, o2, x));
    }
}

/// Adding a workspace to an activity keeps every workspace shown once.
pub proof fn law_joining_shows_once(s: LayoutModel, id: WorkspaceId, act: ActivityId)
    requires
        s.coherent(),
        s.shown_once(),
        s.pool.has(id),
        s.acts.has(act),
        s.join(id, act).fits(),
    ensures
        s.join(id, act).shown_once(),
{
    let old = s.activities_of(id);
    if !old.contains(act) {
        let s1 = LayoutModel { pool: s.pool.set_activities(id, old.push(act)), ..s };
        lemma_joined(s, id, act);
        lemma_same_once(s, s1);
        if let Some(out) = s.holding_output(id) {
            crate::membership::lemma_enlist_leads(s1, act, out, id, true);
            lemma_enlist(s1, act, out, id, true);
            lemma_enlist_once(s1, act, out, id, true);
            let s2 = s1.enlist(act, out, id, true);
            if s2.pool.busy(id) && s2.monitor_pos(out) is Some {
                lemma_normalize_mons_once(s2, s2.monitors.len() as int);
            }
        }
    }
}

/// A workspace that is moved from one activity to another belongs to the second and not to the
/// first, which does not show it any more.
pub proof fn law_moving_changes_sides(s: LayoutModel, id: WorkspaceId, to: ActivityId, from: ActivityId)
    requires
        s.coherent(),
        s.shown_once(),
        s.monitors.len() > 0,
        s.acts.has(to),
        to != from,
        s.pool.member(id, from),
        s.pool.busy(id),
        s.join(id, to).part(id, from).fits(),
    ensures
        s.join(id, to).part(id, from).coherent(),
        s.join(id, to).part(id, from).pool.member(id, to),
        !s.join(id, to).part(id, from).pool.member(id, from),
        forall|out: OutputId| !(#[trigger] s.join(id, to).part(id, from).shows_on(from, out, id)),
{
    let j = s.join(id, to);
    let t = j.part(id, from);
    crate::membership::lemma_part_leads(j, id, from);
    crate::membership::lemma_join_leads(s, id, to);
    law_joining_adds_only(s, id, to);
    law_joining_shows_once(s, id, to);
    assert(j.pool.member(id, to));
    let o = Output { id: OutputId(0), connector: OutputId(0) };
    lemma_joined_busy(s, id, to);
    law_parting_removes_only(j, id, from, o);
    let old = j.activities_of(id);
    let new = old.filter(other_than(from));
    lemma_filter_acts(old, other_than(from));
    lemma_get(j.pool, id);
    let w = j.pool.get(id).unwrap();
    lemma_get_put(j.pool, id, WorkspaceModel { activities: new, ..w });
    let q = j.pool.set_activities(id, new);
    assert(q.get(id) == Some(WorkspaceModel { activities: new, ..w }));
    assert(q.busy(id));
    assert(t.pool.busy(id) == q.busy(id));
    assert(crate::cores::kin(q.get(id).unwrap(), t.pool.get(id).unwrap()));
    assert(new.contains(to));
    assert(!new.contains(from));
}

/// Views that only lose workspaces show each of them once.
pub proof fn lemma_shrunk_once(s: LayoutModel, t: LayoutModel)
    requires
        s.shown_once(),
        forall|a: ActivityId, o: OutputId, x: WorkspaceId| #[trigger]
            t.shows_on(a, o, x) ==> s.shows_on(a, o, x),
    ensures
        t.shown_once(),
{
    assert forall|a: ActivityId, o1: OutputId, o2: OutputId, x: WorkspaceId|
        o1 != o2 && #[trigger] t.shows_on(a, o1, x) implies !(#[trigger] t.shows_on(
        a,
        o2,
        x,
    )) by {
        assert(s.shows_on(a, o1, x));
        if t.shows_on(a, o2, x) {
            assert(s.shows_on(a, o2, x));
        }
    }
}

/// Taking a workspace out of one view shows nothing anew.
pub proof fn lemma_unshow_shrinks(s: LayoutModel, w: Stray)
    requires
        s.coherent(),
    ensures
        forall|a: ActivityId, o: OutputId, x: WorkspaceId| #[trigger]
            s.unshow(w).shows_on(a, o, x) ==> s.shows_on(a, o, x),
{
    lemma_unshow(s, w);
    let t = s.unshow(w);
    assert forall|a: ActivityId, o: OutputId, x: WorkspaceId| #[trigger] t.shows_on(
        a,
        o,
        x,
    ) implies s.shows_on(a, o, x) by {
        if a != w.act || o != w.output {
            assert(t.view_of(a, o) == s.view_of(a, o));
        } else if let Some(v) = s.view_of(w.act, w.output) {
            lemma_view_is_ok(s, w.act, w.output);
            lemma_find_from(v.ids, equal_to(w.id), 0);
            if let Some(p) = v.position_of(w.id) {
                if v.ids.len() == 1 {
                    lemma_drop_view_views(s, w.act, w.output);
                } else {
                    crate::view::lemma_remove_wf(v, p);
                    lemma_view_after_set(s.acts, w.act, w.output, v.remove_at(p));
                }
            }
        }
    }
}

/// Once several activities were asked to stop showing a workspace, none of them shows it.
pub proof fn lemma_unshown_from(s: LayoutModel, acts: Seq<ActivityId>, id: WorkspaceId)
    requires
        s.coherent(),
        s.shown_once(),
    ensures
        ({
            let t = s.unshow_from(acts, id);
            &&& t.coherent()
            &&& t.shown_once()
            &&& t.pool == s.pool
            &&& t.acts.ids() == s.acts.ids()
            &&& forall|a: ActivityId, o: OutputId|
                acts.contains(a) ==> !(#[trigger] t.shows_on(a, o, id))
            &&& forall|a: ActivityId, o: OutputId, x: WorkspaceId| #[trigger]
                t.shows_on(a, o, x) ==> s.shows_on(a, o, x)
        }),
    decreases acts.len(),
{
    if acts.len() > 0 {
        let rest = acts.drop_last();
        let last = acts.last();
        lemma_unshown_from(s, rest, id);
        let r = s.unshow_from(rest, id);
        let t = s.unshow_from(acts, id);
        assert(t == r.hidden_from(last, id));
        lemma_unshown(r, last, id);
        if let Some(w) = r.stray(last, id) {
            lemma_unshow_shrinks(r, w);
        }
        assert forall|a: ActivityId, o: OutputId, x: WorkspaceId| #[trigger] t.shows_on(
            a,
            o,
            x,
        ) implies s.shows_on(a, o, x) by {
            assert(r.shows_on(a, o, x));
        }
        lemma_shrunk_once(s, t);
        assert forall|a: ActivityId, o: OutputId| acts.contains(a) implies !(#[trigger] t.shows_on(
            a,
            o,
            id,
        )) by {
            if a != last {
                let k = choose|k: int| 0 <= k < acts.len() && acts[k] == a;
                assert(rest[k] == a);
                assert(rest.contains(a));
                assert(t.view_of(a, o) == r.view_of(a, o));
                assert(!r.shows_on(a, o, id));
            }
        }
    }
}

/// Which activities a workspace belongs to has no bearing on taking it out of views.
pub proof fn lemma_unshow_from_pool(
    s: LayoutModel,
    q: PoolModel,
    acts: Seq<ActivityId>,
    id: WorkspaceId,
)
    ensures
        (LayoutModel { pool: q, ..s }).unshow_from(acts, id) == (LayoutModel {
            pool: q,
            ..s.unshow_from(acts, id)
        }),
    decreases acts.len(),
{
    if acts.len() > 0 {
        lemma_unshow_from_pool(s, q, acts.drop_last(), id);
    }
}

/// Showing a workspace to several activities it belongs to keeps the layout coherent.
pub proof fn lemma_enlist_all(s: LayoutModel, acts: Seq<ActivityId>, out: OutputId, id: WorkspaceId)
    requires
        s.coherent(),
        forall|i: int| 0 <= i < acts.len() ==> s.pool.member(id, #[trigger] acts[i]),
    ensures
        s.enlist_all(acts, out, id).coherent(),
        s.enlist_all(acts, out, id).pool == s.pool,
    decreases acts.len(),
{
    if acts.len() > 0 {
        let rest = acts.drop_last();
        assert forall|i: int| 0 <= i < rest.len() implies s.pool.member(id, #[trigger] rest[i]) by {
            assert(rest[i] == acts[i]);
        }
        lemma_enlist_all(s, rest, out, id);
        let t = s.enlist_all(rest, out, id);
        assert(s.pool.member(id, acts[acts.len() - 1]));
        lemma_enlist(t, acts.last(), out, id, false);
        crate::membership::lemma_enlist_leads(t, acts.last(), out, id, false);
    }
}

/// Collapsing views is calm and keeps the layout coherent.
pub proof fn lemma_collapse_all(s: LayoutModel, work: Seq<Stray>, o: Output)
    requires
        s.coherent(),
        s.monitors.len() > 0,
    ensures
        s.collapse_all(work).coherent(),
        s.collapse_all(work).monitors.len() > 0,
        calm(s, s.collapse_all(work), o),
    decreases work.len(),
{
    if work.len() == 0 {
        lemma_calm_still(s, s, o);
    } else {
        lemma_collapse_all(s, work.drop_last(), o);
        let t = s.collapse_all(work.drop_last());
        let w = work.last();
        lemma_collapse(t, w.act, w.output);
        lemma_collapse_calm(t, w.act, w.output, o);
        crate::reclaim::lemma_collapse_leads(t, w.act, w.output);
        lemma_calm_trans(s, t, s.collapse_all(work), o);
    }
}

/// A workspace that is given activities belongs to those alone. Nothing with windows or a name
/// changes otherwise.
pub proof fn law_reassigning_sets(s: LayoutModel, id: WorkspaceId, new: Seq<ActivityId>, o: Output)
    requires
        s.coherent(),
        s.shown_once(),
        s.monitors.len() > 0,
        s.pool.has(id),
        new.len() > 0,
        forall|a: ActivityId| #[trigger] new.contains(a) ==> s.acts.has(a),
        s.reassign(id, new).fits(),
    ensures
        s.reassign(id, new).coherent(),
        same_work(
            if s.activities_of(id).filter(absent_from(new)).len() == 0 && new.filter(
                absent_from(s.activities_of(id)),
            ).len() == 0 {
                s.pool
            } else {
                s.pool.set_activities(id, new)
            },
            s.reassign(id, new).pool,
            o,
        ),
{
    let old = s.activities_of(id);
    let gone = old.filter(absent_from(new));
    let come = new.filter(absent_from(old));
    lemma_calm_still(s, s, o);
    if gone.len() > 0 || come.len() > 0 {
        let s1 = if s.reassign_affects(id, new) {
            s.snap_all()
        } else {
            s
        };
        assert(s1.coherent());
        lemma_same_once(s, s1);
        let q = s.pool.set_activities(id, new);
        let s2 = LayoutModel { pool: q, ..s1 };
        lemma_unshown_from(s1, gone, id);
        lemma_unshow_from_pool(s1, q, gone, id);
        let u = s1.unshow_from(gone, id);
        lemma_filter_acts(old, absent_from(new));
        lemma_filter_acts(new, absent_from(old));
        lemma_same_ids(s1.acts, u.acts);
        assert forall|a: ActivityId| #[trigger] new.contains(a) implies u.acts.has(a) by {
            assert(s.acts.has(a));
            assert(s1.acts.has(a));
        }
        assert forall|a: ActivityId, out: OutputId| #[trigger] u.shows_on(
            a,
            out,
            id,
        ) implies new.contains(a) by {
            lemma_view_is_ok(u, a, out);
            assert(u.pool.member(id, a));
            if !new.contains(a) {
                assert(gone.contains(a));
            }
        }
        lemma_set_activities(u, id, new);
        let s3 = LayoutModel { pool: q, ..u };
        assert(s2.unshow_from(gone, id) == s3);
        let w = s.pool.get(id).unwrap();
        lemma_get(s.pool, id);
        lemma_get_put(s.pool, id, WorkspaceModel { activities: new, ..w });
        crate::membership::lemma_unshow_from_leads(s1, gone, id);
        lemma_reassign_rest(s, s2, s3, id, gone, come, o);
    }
}

/// The last steps of giving a workspace activities.
pub proof fn lemma_reassign_rest(
    s: LayoutModel,
    s2: LayoutModel,
    s3: LayoutModel,
    id: WorkspaceId,
    gone: Seq<ActivityId>,
    come: Seq<ActivityId>,
    o: Output,
)
    requires
        s3.coherent(),
        s3.monitors.len() > 0,
        forall|a: ActivityId| #[trigger] come.contains(a) ==> s3.pool.member(id, a),
        s.reassigned_from(s2, s3, id, gone, come).fits(),
    ensures
        s.reassigned_from(s2, s3, id, gone, come).coherent(),
        same_work(s3.pool, s.reassigned_from(s2, s3, id, gone, come).pool, o),
{
    let t = s.reassigned_from(s2, s3, id, gone, come);
    let s4 = match s.holding_output(id) {
        Some(out) => s3.enlist_all(come, out, id),
        None => s3,
    };
    assert forall|i: int| 0 <= i < come.len() implies s3.pool.member(id, #[trigger] come[i]) by {
        assert(come.contains(come[i]));
    }
    if let Some(out) = s.holding_output(id) {
        lemma_enlist_all(s3, come, out, id);
        crate::membership::lemma_enlist_all_leads(s3, come, out, id);
    }
    assert(s4.coherent() && s4.pool == s3.pool && s4.monitors.len() > 0);
    let connected = match s.holding_output(id) {
        Some(out) => s.monitor_pos(out) is Some,
        None => false,
    };
    let s5 = if s4.pool.busy(id) && connected {
        s4.normalize()
    } else {
        s4
    };
    let s6 = if s2.unshow_empties(gone, id) {
        s5.ensure_all()
    } else {
        s5
    };
    let work = s2.unshow_thins(gone, id);
    let s7 = s6.collapse_all(work);
    crate::bookends::lemma_normalize_leads(s4);
    crate::materialize::lemma_ensure_rows_leads(s5, 0, s5.acts.list.len() as int);
    crate::reconcile::lemma_collapse_all_leads(s6, work);
    crate::reclaim::lemma_reclaim_leads(s7, id);
    lemma_calm_still(s4, s4, o);
    if s4.pool.busy(id) && connected {
        law_normalize_adds_only(s4);
        crate::parking::lemma_normalize_mons_calm(s4, s4.monitors.len() as int, o);
    }
    assert(s5.coherent() && same_work(s3.pool, s5.pool, o));
    lemma_calm_still(s5, s5, o);
    if s2.unshow_empties(gone, id) {
        lemma_ensure_all(s5);
        lemma_ensure_rows_work(s5, s5.acts.list.len() as int, o);
    }
    lemma_same_work_trans(s3.pool, s5.pool, s6.pool, o);
    assert(s6.monitors.len() > 0);
    lemma_collapse_all(s6, work, o);
    lemma_same_work_trans(s3.pool, s6.pool, s7.pool, o);
    lemma_reclaim(s7, id);
    lemma_reclaim_calm(s7, id, o);
    lemma_same_work_trans(s3.pool, s7.pool, s7.reclaim(id).pool, o);
}

impl LayoutModel {
    /// What giving workspace `id` activities comes to once the activities `gone` stopped showing
    /// it.
    pub open spec fn reassigned_from(
        self,
        s2: LayoutModel,
        s3: LayoutModel,
        id: WorkspaceId,
        gone: Seq<ActivityId>,
        come: Seq<ActivityId>,
    ) -> LayoutModel {
        let s4 = match self.holding_output(id) {
            Some(out) => s3.enlist_all(come, out, id),
            None => s3,
        };
        let connected = match self.holding_output(id) {
            Some(out) => self.monitor_pos(out) is Some,
            None => false,
        };
        let s5 = if s4.pool.busy(id) && connected {
            s4.normalize()
        } else {
            s4
        };
        let s6 = if s2.unshow_empties(gone, id) {
            s5.ensure_all()
        } else {
            s5
        };
        let s7 = s6.collapse_all(s2.unshow_thins(gone, id));
        if gone.len() > 0 {
            s7.reclaim(id)
        } else {
            s7
        }
    }
}

/// First occurrences are the same elements.
pub proof fn lemma_distinct(s: Seq<ActivityId>)
    ensures
        forall|a: ActivityId| #[trigger] distinct(s).contains(a) <==> s.contains(a),
    decreases s.len(),
{
    if s.len() > 0 {
        let rest = s.drop_last();
        lemma_distinct(rest);
        let f = distinct(rest);
        let g = distinct(s);
        assert forall|a: ActivityId| #[trigger] g.contains(a) <==> s.contains(a) by {
            if s.contains(a) {
                let k = choose|k: int| 0 <= k < s.len() && s[k] == a;
                if k < rest.len() {
                    assert(rest[k] == a);
                    assert(rest.contains(a));
                    assert(f.contains(a));
                    let j = choose|j: int| 0 <= j < f.len() && f[j] == a;
                    assert(g[j] == a);
                } else if !f.contains(a) {
                    assert(g[g.len() - 1] == a);
                }
            }
            if g.contains(a) {
                let j = choose|j: int| 0 <= j < g.len() && g[j] == a;
                if j < f.len() {
                    assert(f[j] == a);
                    assert(f.contains(a));
                    let k = choose|k: int| 0 <= k < rest.len() && rest[k] == a;
                    assert(s[k] == a);
                } else {
                    assert(s[s.len() - 1] == a);
                }
            }
        }
    }
}

} // verus!
