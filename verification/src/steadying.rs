//! Connecting and disconnecting outputs loses no work: every workspace with windows or a name stays
//! as it is, but for the output that it is on.

use vstd::prelude::*;

use crate::activity::{ActivitiesModel, ActivityModel};
use crate::changing::lists_once;
use crate::coherence::{
    lemma_alike, lemma_get, lemma_get_put, lemma_get_remove, lemma_push, lemma_put_alike,
    lemma_same_ids, member_ok, members_ok, pool_ok,
};
use crate::connect::{bound_for, coming_along, leaving, left_behind};
use crate::cores::{apart, kin, rerouted};
use crate::disconnect::{firsts, index_after, movers, residents};
use crate::ids::{ActivityId, OutputId, WorkspaceId};
use crate::keeping_outputs::lemma_firsts;
use crate::keeping_views::lemma_filter;
use crate::layout::LayoutModel;
use crate::materialize::{framed, lemma_add_view_ids, lemma_put_ids, strip_others, tagged};
use crate::monitor::Monitor;
use crate::outputs::{idle, reseated, turned_to, worth_keeping};
use crate::pool::PoolModel;
use crate::reclaim::{doubled, pruned, swept};
use crate::view::ViewModel;
use crate::workspace::{Output, WorkspaceModel};

verus! {

/// Every workspace that has windows or a name in `p` is the same in `q` but for the output that it
/// is on, and if it is routed to `o` in `p`, it is in `q`. No other one has windows or a name.
pub open spec fn spares(p: PoolModel, q: PoolModel, o: Output) -> bool {
    &&& forall|x: WorkspaceId| #[trigger] q.busy(x) ==> p.busy(x)
    &&& forall|x: WorkspaceId| #[trigger]
        p.busy(x) ==> q.busy(x) && kin(p.get(x).unwrap(), q.get(x).unwrap()) && (bound_for(p, x, o)
            ==> bound_for(q, x, o))
}

/// What is in `q` is as it was in `p`, wherever it is routed, or was not there yet.
pub open spec fn faithful(p: PoolModel, q: PoolModel) -> bool {
    &&& p.next <= q.next
    &&& forall|x: WorkspaceId| #[trigger]
        q.has(x) ==> x.0 >= p.next || (p.has(x) && kin(p.get(x).unwrap(), q.get(x).unwrap()))
}

/// Between `s` and `t` no work is lost, the activities stay, and so does what belongs to them.
pub open spec fn steady(s: LayoutModel, t: LayoutModel, o: Output) -> bool {
    &&& t.staffed()
    &&& t.acts.ids() == s.acts.ids()
    &&& t.acts.active == s.acts.active
    &&& s.acts.next <= t.acts.next
    &&& spares(s.pool, t.pool, o)
    &&& lists_once(s.pool) ==> lists_once(t.pool)
    &&& faithful(s.pool, t.pool)
}

/// Binding to `output` leaves what is routed to `o` routed there.
pub open spec fn fair(output: Output, o: Output) -> bool {
    apart(output, o) || (output == o && o.id.0 != 0)
}

/// Two steady steps make one.
pub proof fn lemma_steady_trans(s: LayoutModel, t: LayoutModel, u: LayoutModel, o: Output)
    requires
        steady(s, t, o),
        steady(t, u, o),
    ensures
        steady(s, u, o),
{
    assert forall|x: WorkspaceId| #[trigger] s.pool.busy(x) implies u.pool.busy(x) && kin(
        s.pool.get(x).unwrap(),
        u.pool.get(x).unwrap(),
    ) && (bound_for(s.pool, x, o) ==> bound_for(u.pool, x, o)) by {
        assert(t.pool.busy(x));
    }
    assert forall|x: WorkspaceId| #[trigger] u.pool.has(x) implies x.0 >= s.pool.next || (
    s.pool.has(x) && kin(s.pool.get(x).unwrap(), u.pool.get(x).unwrap())) by {
        if x.0 < t.pool.next {
            assert(t.pool.has(x));
        }
    }
}

/// A step that leaves the pool alone and the activities in place is steady.
pub proof fn lemma_steady_acts(s: LayoutModel, t: LayoutModel, o: Output)
    requires
        s.staffed(),
        t.pool == s.pool,
        t.acts.ids() == s.acts.ids(),
        t.acts.active == s.acts.active,
        s.acts.next <= t.acts.next,
    ensures
        steady(s, t, o),
{
    lemma_steady_step(s, t, o);
}

/// A step that keeps the activities in place and the pool in order is steady if it spares the work.
pub proof fn lemma_steady_step(s: LayoutModel, t: LayoutModel, o: Output)
    requires
        s.staffed(),
        pool_ok(t.pool),
        members_ok(t.pool, s.acts),
        spares(s.pool, t.pool, o),
        lists_once(s.pool) ==> lists_once(t.pool),
        faithful(s.pool, t.pool),
        t.acts.ids() == s.acts.ids(),
        t.acts.active == s.acts.active,
        s.acts.next <= t.acts.next,
    ensures
        steady(s, t, o),
{
    lemma_same_ids(s.acts, t.acts);
    assert(t.acts.list.len() == t.acts.ids().len());
    assert(s.acts.list.len() == s.acts.ids().len());
    assert forall|i: int| 0 <= i < t.acts.list.len() implies (#[trigger] t.acts.list[i]).id
        == s.acts.list[i].id by {
        assert(t.acts.ids()[i] == t.acts.list[i].id);
        assert(s.acts.ids()[i] == s.acts.list[i].id);
    }
    assert forall|i: int, j: int| 0 <= i < j < t.acts.list.len() implies (
    #[trigger] t.acts.list[i]).id != (#[trigger] t.acts.list[j]).id by {
        assert(s.acts.list[i].id != s.acts.list[j].id);
    }
    assert forall|i: int| 0 <= i < t.acts.list.len() implies (#[trigger] t.acts.list[i]).id.0
        < t.acts.next by {
        assert(s.acts.list[i].id.0 < s.acts.next);
    }
    assert forall|i: int| 0 <= i < t.pool.items.len() implies member_ok(
        t.acts,
        #[trigger] t.pool.items[i],
    ) by {
        assert(member_ok(s.acts, t.pool.items[i]));
    }
}

/// A pool with the same workspaces in the same activities has members in order.
pub proof fn lemma_alike_members(p: PoolModel, q: PoolModel, acts: ActivitiesModel)
    requires
        crate::coherence::alike(p, q),
        pool_ok(p),
        members_ok(p, acts),
    ensures
        pool_ok(q),
        members_ok(q, acts),
        lists_once(p) ==> lists_once(q),
{
    lemma_alike(p, q);
    if lists_once(p) {
        assert forall|i: int| 0 <= i < q.items.len() implies (
        #[trigger] q.items[i]).activities.no_duplicates() by {
            assert(p.items[i].activities.no_duplicates());
        }
    }
    assert forall|i: int| 0 <= i < q.items.len() implies member_ok(acts, #[trigger] q.items[i]) by {
        assert(member_ok(acts, p.items[i]));
    }
}

/// A view changed is a steady step.
pub proof fn lemma_with_view_steady(
    s: LayoutModel,
    act: ActivityId,
    out: OutputId,
    v: ViewModel,
    o: Output,
)
    requires
        s.staffed(),
    ensures
        steady(s, s.with_view(act, out, v), o),
{
    crate::bookends::lemma_set_view_ids(s.acts, act, out, v);
    lemma_steady_acts(s, s.with_view(act, out, v), o);
}

/// A new empty workspace is a steady step.
pub proof fn lemma_mint_steady(s: LayoutModel, t: LayoutModel, out: OutputId, act: ActivityId, o: Output)
    requires
        s.staffed(),
        s.pool.next < u64::MAX,
        s.acts.has(act),
        t.pool == s.pool.mint(out, act),
        t.acts.ids() == s.acts.ids(),
        t.acts.active == s.acts.active,
        s.acts.next <= t.acts.next,
    ensures
        steady(s, t, o),
{
    let w = WorkspaceModel::fresh(s.pool.next_id(), out, act);
    lemma_push(s.pool, w);
    if lists_once(s.pool) {
        crate::wholeness::lemma_mint_lists(s.pool, out, act);
    }
    assert forall|i: int| 0 <= i < t.pool.items.len() implies member_ok(
        s.acts,
        #[trigger] t.pool.items[i],
    ) by {
        if i < s.pool.items.len() {
            assert(member_ok(s.acts, s.pool.items[i]));
        }
    }
    assert forall|x: WorkspaceId| #[trigger] s.pool.busy(x) implies t.pool.busy(x) && kin(
        s.pool.get(x).unwrap(),
        t.pool.get(x).unwrap(),
    ) && (bound_for(s.pool, x, o) ==> bound_for(t.pool, x, o)) by {
        lemma_get(s.pool, x);
        assert(x != w.id);
    }
    assert forall|x: WorkspaceId| #[trigger] t.pool.busy(x) implies s.pool.busy(x) by {
        if x != w.id {
            assert(t.pool.get(x) == s.pool.get(x));
        }
    }
    assert forall|x: WorkspaceId| #[trigger] t.pool.has(x) implies x.0 >= s.pool.next || (
    s.pool.has(x) && kin(s.pool.get(x).unwrap(), t.pool.get(x).unwrap())) by {
        if x != w.id {
            assert(t.pool.get(x) == s.pool.get(x));
        }
    }
    lemma_steady_step(s, t, o);
}

/// A workspace that is put back with the same work is a steady step.
pub proof fn lemma_put_steady(s: LayoutModel, id: WorkspaceId, w: WorkspaceModel, o: Output)
    requires
        s.staffed(),
        match s.pool.get(id) {
            Some(old) => kin(old, w) && rerouted(old, w, o) && ((match old.output_id {
                Some(out) => out.designates(o),
                None => false,
            }) ==> (match w.output_id {
                Some(out) => out.designates(o),
                None => false,
            })),
            None => true,
        },
    ensures
        steady(s, (LayoutModel { pool: s.pool.put(id, w), ..s }), o),
{
    let t = LayoutModel { pool: s.pool.put(id, w), ..s };
    lemma_get(s.pool, id);
    lemma_put_alike(s.pool, id, w);
    lemma_alike_members(s.pool, t.pool, s.acts);
    lemma_get_put(s.pool, id, w);
    assert forall|x: WorkspaceId| #[trigger] s.pool.busy(x) implies t.pool.busy(x) && kin(
        s.pool.get(x).unwrap(),
        t.pool.get(x).unwrap(),
    ) && (bound_for(s.pool, x, o) ==> bound_for(t.pool, x, o)) by {
        if x != id {
            assert(t.pool.get(x) == s.pool.get(x));
        }
    }
    assert forall|x: WorkspaceId| #[trigger] t.pool.busy(x) implies s.pool.busy(x) by {
        if x != id {
            assert(t.pool.get(x) == s.pool.get(x));
        } else {
            assert(t.pool.pos(x) == s.pool.pos(x));
        }
    }
    assert forall|x: WorkspaceId| #[trigger] t.pool.has(x) implies x.0 >= s.pool.next || (
    s.pool.has(x) && kin(s.pool.get(x).unwrap(), t.pool.get(x).unwrap())) by {
        if x != id {
            assert(t.pool.get(x) == s.pool.get(x));
        } else {
            assert(t.pool.pos(x) == s.pool.pos(x));
        }
    }
    lemma_steady_step(s, t, o);
}

/// Binding and unbinding workspaces is steady.
pub proof fn lemma_bind_steady(s: LayoutModel, id: WorkspaceId, output: Output, o: Output)
    requires
        s.staffed(),
        fair(output, o),
    ensures
        steady(s, (LayoutModel { pool: s.pool.bind(id, output), ..s }), o),
        steady(s, (LayoutModel { pool: s.pool.unbind(id), ..s }), o),
{
    match s.pool.get(id) {
        Some(w) => {
            lemma_put_steady(s, id, w.bind(output), o);
            lemma_put_steady(s, id, w.unbind(), o);
        },
        None => {
            lemma_steady_acts(s, s, o);
        },
    }
}

/// Binding workspaces is steady.
pub proof fn lemma_bind_all_steady(s: LayoutModel, ids: Seq<WorkspaceId>, output: Output, o: Output)
    requires
        s.staffed(),
        fair(output, o),
    ensures
        steady(s, (LayoutModel { pool: s.pool.bind_all(ids, output), ..s }), o),
    decreases ids.len(),
{
    if ids.len() == 0 {
        lemma_steady_acts(s, s, o);
    } else {
        lemma_bind_all_steady(s, ids.drop_last(), output, o);
        let t = LayoutModel { pool: s.pool.bind_all(ids.drop_last(), output), ..s };
        lemma_bind_steady(t, ids.last(), output, o);
        lemma_steady_trans(s, t, LayoutModel { pool: s.pool.bind_all(ids, output), ..s }, o);
    }
}

/// Unbinding workspaces is steady.
pub proof fn lemma_unbind_all_steady(s: LayoutModel, ids: Seq<WorkspaceId>, o: Output)
    requires
        s.staffed(),
    ensures
        steady(s, (LayoutModel { pool: s.pool.unbind_all(ids), ..s }), o),
    decreases ids.len(),
{
    if ids.len() == 0 {
        lemma_steady_acts(s, s, o);
    } else {
        lemma_unbind_all_steady(s, ids.drop_last(), o);
        let t = LayoutModel { pool: s.pool.unbind_all(ids.drop_last()), ..s };
        let id = ids.last();
        match t.pool.get(id) {
            Some(w) => {
                lemma_put_steady(t, id, w.unbind(), o);
            },
            None => {
                lemma_steady_acts(t, t, o);
            },
        }
        lemma_steady_trans(s, t, LayoutModel { pool: s.pool.unbind_all(ids), ..s }, o);
    }
}

/// Destroying an empty workspace is steady.
pub proof fn lemma_destroy_steady(s: LayoutModel, id: WorkspaceId, o: Output)
    requires
        s.staffed(),
        !s.pool.busy(id),
    ensures
        steady(s, s.destroy(id), o),
        forall|x: WorkspaceId| #[trigger] s.destroy(id).pool.busy(x) ==> s.pool.busy(x),
{
    let t = s.destroy(id);
    if s.pool.shared(id) {
        lemma_steady_acts(s, s, o);
    } else {
        crate::reclaim::lemma_destroy_leads(s, id);
        lemma_get_remove(s.pool, id);
        lemma_get(s.pool, id);
        assert forall|i: int| 0 <= i < t.pool.items.len() implies member_ok(
            s.acts,
            #[trigger] t.pool.items[i],
        ) by {
            if let Some(k) = s.pool.pos(id) {
                assert(t.pool.items[i] == s.pool.items[if i < k {
                    i
                } else {
                    i + 1
                }]);
            }
            let j = if s.pool.pos(id) is Some && i >= s.pool.pos(id).unwrap() {
                i + 1
            } else {
                i
            };
            assert(member_ok(s.acts, s.pool.items[j]));
        }
        if lists_once(s.pool) {
            assert forall|i: int| 0 <= i < t.pool.items.len() implies (
            #[trigger] t.pool.items[i]).activities.no_duplicates() by {
                let j = if s.pool.pos(id) is Some && i >= s.pool.pos(id).unwrap() {
                    i + 1
                } else {
                    i
                };
                assert(t.pool.items[i] == s.pool.items[j]);
                assert(s.pool.items[j].activities.no_duplicates());
            }
        }
        assert forall|x: WorkspaceId| #[trigger] s.pool.busy(x) implies t.pool.busy(x) && kin(
            s.pool.get(x).unwrap(),
            t.pool.get(x).unwrap(),
        ) && (bound_for(s.pool, x, o) ==> bound_for(t.pool, x, o)) by {
            assert(x != id);
        }
        assert forall|x: WorkspaceId| #[trigger] t.pool.busy(x) implies s.pool.busy(x) by {
            if x != id {
                assert(t.pool.get(x) == s.pool.get(x));
            } else {
                lemma_get(t.pool, x);
            }
        }
        assert forall|x: WorkspaceId| #[trigger] t.pool.has(x) implies x.0 >= s.pool.next || (
        s.pool.has(x) && kin(s.pool.get(x).unwrap(), t.pool.get(x).unwrap())) by {
            if x != id {
                assert(t.pool.get(x) == s.pool.get(x));
            } else {
                lemma_get(t.pool, x);
            }
        }
        lemma_steady_step(s, t, o);
    }
}

/// Destroying empty workspaces is steady.
pub proof fn lemma_destroy_all_steady(s: LayoutModel, ids: Seq<WorkspaceId>, o: Output)
    requires
        s.staffed(),
        forall|i: int| 0 <= i < ids.len() ==> !s.pool.busy(#[trigger] ids[i]),
    ensures
        steady(s, s.destroy_all(ids), o),
        forall|x: WorkspaceId| #[trigger] s.destroy_all(ids).pool.busy(x) ==> s.pool.busy(x),
    decreases ids.len(),
{
    if ids.len() == 0 {
        lemma_steady_acts(s, s, o);
    } else {
        let rest = ids.drop_last();
        assert forall|i: int| 0 <= i < rest.len() implies !s.pool.busy(#[trigger] rest[i]) by {
            assert(!s.pool.busy(ids[i]));
        }
        lemma_destroy_all_steady(s, rest, o);
        let t = s.destroy_all(rest);
        assert(!s.pool.busy(ids[ids.len() - 1]));
        lemma_destroy_steady(t, ids.last(), o);
        lemma_steady_trans(s, t, s.destroy_all(ids), o);
    }
}

/// Sweeping a monitor is steady.
pub proof fn lemma_clean_up_steady(s: LayoutModel, mon: int, o: Output)
    requires
        s.staffed(),
    ensures
        steady(s, s.clean_up(mon), o),
{
    let m = s.monitors[mon];
    let leading = m.empty_workspace_above_first;
    lemma_steady_acts(s, s, o);
    if let Some(v) = s.active_view(m.output.id) {
        if v.ids.len() > 0 {
            let v1 = swept(s.pool, v, leading);
            let p = pruned(s.pool, v, leading);
            let gone = v.ids.filter(p);
            lemma_filter(v.ids, p);
            assert forall|i: int| 0 <= i < gone.len() implies !s.pool.busy(#[trigger] gone[i]) by {
                assert(gone.contains(gone[i]));
            }
            let all = if doubled(s.pool, v1, leading) {
                gone.push(v1.ids[1])
            } else {
                gone
            };
            let w = if doubled(s.pool, v1, leading) {
                v1.remove_at(1)
            } else {
                v1
            };
            let t = s.with_view(s.acts.active, m.output.id, w);
            lemma_with_view_steady(s, s.acts.active, m.output.id, w, o);
            assert forall|i: int| 0 <= i < all.len() implies !t.pool.busy(#[trigger] all[i]) by {
                if i < gone.len() {
                    assert(all[i] == gone[i]);
                }
            }
            lemma_destroy_all_steady(t, all, o);
            lemma_steady_trans(s, t, t.destroy_all(all), o);
        }
    }
}

/// A new workspace put into a view is a steady step.
pub proof fn lemma_mint_into_steady(s: LayoutModel, mon: int, act: ActivityId, pos: int, o: Output)
    requires
        s.staffed(),
        s.mint_into(mon, act, pos).fits(),
    ensures
        steady(s, s.mint_into(mon, act, pos), o),
{
    let out = s.monitors[mon].output.id;
    let t = s.mint_into(mon, act, pos);
    lemma_steady_acts(s, s, o);
    if let Some(v) = s.view_of(act, out) {
        let w = v.insert(pos, s.pool.next_id());
        crate::bookends::lemma_set_view_ids(s.acts, act, out, w);
        let (i, j) = crate::wholeness::lemma_view_entry(s, act, out);
        lemma_mint_steady(s, t, out, act, o);
    }
}

/// Workspaces put into a view are a steady step.
pub proof fn lemma_append_steady(s: LayoutModel, mon: int, ids: Seq<WorkspaceId>, o: Output)
    requires
        s.staffed(),
        0 <= mon < s.monitors.len(),
        fair(s.monitors[mon].output, o),
        s.append(mon, ids).fits(),
    ensures
        steady(s, s.append(mon, ids), o),
{
    let m = s.monitors[mon];
    let out = m.output.id;
    let act = s.acts.active;
    lemma_steady_acts(s, s, o);
    if ids.len() > 0 {
        let s1 = LayoutModel { pool: s.pool.bind_all(ids, m.output), ..s };
        lemma_bind_all_steady(s, ids, m.output, o);
        if let Some(v) = s1.active_view(out) {
            if v.ids.len() > 0 {
                let v1 = crate::transfer::spliced(v, ids);
                let s2 = s1.with_view(act, out, v1);
                lemma_with_view_steady(s1, act, out, v1, o);
                lemma_steady_trans(s, s1, s2, o);
                let top = m.empty_workspace_above_first && s2.pool.busy(v1.ids[0]);
                let s3 = if top {
                    s2.add_workspace_top(mon)
                } else {
                    s2
                };
                let s4 = match s3.active_view(out) {
                    Some(v3) => if v.active_position() == v.ids.len() - 1 {
                        s3.with_view(act, out, v3.set_active_at(v3.ids.len() - 1))
                    } else {
                        s3
                    },
                    None => s3,
                };
                let s5 = s4.settle(mon);
                crate::reclaim::lemma_clean_up_leads(s5, mon);
                assert(s3.pool == s4.pool && s4.pool == s5.pool);
                assert(s3.fits()) by {
                    if s3.active_view(out) is Some {
                        assert(s.append(mon, ids) == s5.clean_up(mon));
                        assert(s5.before(s5.clean_up(mon)));
                        assert(s3.acts.next == s5.acts.next && s3.acts.seq == s5.acts.seq) by {
                            crate::reclaim::lemma_with_view_leads(
                                s3,
                                act,
                                out,
                                s3.active_view(out).unwrap().set_active_at(
                                    s3.active_view(out).unwrap().ids.len() - 1,
                                ),
                            );
                        }
                    }
                }
                if top {
                    lemma_mint_into_steady(s2, mon, act, 0, o);
                } else {
                    lemma_steady_acts(s2, s2, o);
                }
                lemma_steady_trans(s, s2, s3, o);
                if let Some(v3) = s3.active_view(out) {
                    lemma_with_view_steady(s3, act, out, v3.set_active_at(v3.ids.len() - 1), o);
                    lemma_steady_acts(s3, s3, o);
                    lemma_steady_trans(s, s3, s4, o);
                    lemma_steady_acts(s4, s5, o);
                    lemma_steady_trans(s, s4, s5, o);
                    lemma_clean_up_steady(s5, mon, o);
                    lemma_steady_trans(s, s5, s5.clean_up(mon), o);
                }
            }
        }
    }
}

/// Opening a view is steady.
pub proof fn lemma_open_view_steady(s: LayoutModel, mon: int, act: ActivityId, o: Output)
    requires
        s.staffed(),
        s.open_view(mon, act).fits(),
    ensures
        steady(s, s.open_view(mon, act), o),
{
    let m = s.monitors[mon];
    let out = m.output.id;
    let body = tagged(s.pool, act, out);
    let bottom = s.pool.next_id();
    let p1 = s.pool.mint(out, act);
    let t = s.open_view(mon, act);
    lemma_steady_acts(s, s, o);
    if let Some(a) = s.acts.get(act) {
        crate::search::lemma_find_from(s.acts.list, crate::activity::named(act), 0);
        let a2 = ActivityModel { views: strip_others(a.views, out, body), ..a };
        let stripped = s.acts.put(act, a2);
        lemma_put_ids(s.acts, act, a2);
        lemma_add_view_ids(stripped, act, out, framed(body, bottom, Some(p1.next_id())));
        lemma_add_view_ids(stripped, act, out, framed(body, bottom, None));
        lemma_add_view_ids(s.acts, act, out, framed(body, bottom, None));
        let mid = LayoutModel { pool: p1, ..s };
        lemma_mint_steady(s, mid, out, act, o);
        if t.pool == p1 {
            lemma_steady_acts(mid, t, o);
        } else {
            lemma_mint_steady(mid, t, out, act, o);
        }
        lemma_steady_trans(s, mid, t, o);
    }
}

/// Opening the views that an activity lacks is steady.
pub proof fn lemma_ensure_row_steady(s: LayoutModel, act: ActivityId, n: int, o: Output)
    requires
        s.staffed(),
        s.ensure_row(act, n).fits(),
    ensures
        steady(s, s.ensure_row(act, n), o),
    decreases n,
{
    lemma_steady_acts(s, s, o);
    if n > 0 {
        let t = s.ensure_row(act, n - 1);
        crate::materialize::lemma_ensure_view_leads(t, n - 1, act);
        lemma_ensure_row_steady(s, act, n - 1, o);
        if t.view_of(act, t.monitors[n - 1].output.id) is Some {
            lemma_steady_acts(t, t, o);
        } else {
            lemma_open_view_steady(t, n - 1, act, o);
        }
        lemma_steady_trans(s, t, s.ensure_row(act, n), o);
    }
}

/// Opening the views that activities lack is steady.
pub proof fn lemma_ensure_rows_steady(s: LayoutModel, n: int, o: Output)
    requires
        s.staffed(),
        s.ensure_rows(n).fits(),
    ensures
        steady(s, s.ensure_rows(n), o),
    decreases n,
{
    lemma_steady_acts(s, s, o);
    if n > 0 {
        let t = s.ensure_rows(n - 1);
        let act = s.acts.list[n - 1].id;
        let k = s.monitors.len() as int;
        crate::materialize::lemma_ensure_row_leads(t, act, k, k);
        lemma_ensure_rows_steady(s, n - 1, o);
        lemma_ensure_row_steady(t, act, k, o);
        lemma_steady_trans(s, t, s.ensure_rows(n), o);
    }
}

/// Putting in a view's missing bookends is steady.
pub proof fn lemma_normalize_acts_steady(s: LayoutModel, mon: int, n: int, o: Output)
    requires
        s.staffed(),
        0 <= mon < s.monitors.len(),
        s.normalize_acts(mon, n).fits(),
    ensures
        steady(s, s.normalize_acts(mon, n), o),
    decreases n,
{
    lemma_steady_acts(s, s, o);
    if n > 0 {
        let t = s.normalize_acts(mon, n - 1);
        let act = s.acts.list[n - 1].id;
        crate::bookends::lemma_normalize_acts_leads(s, mon, n - 1, n - 1);
        crate::bookends::lemma_normalize_view_leads(t, mon, act);
        lemma_normalize_acts_steady(s, mon, n - 1, o);
        let u = s.normalize_acts(mon, n);
        lemma_steady_acts(t, t, o);
        if let Some(v) = t.view_of(act, t.monitors[mon].output.id) {
            if v.ids.len() > 0 {
                let k = v.ids.len() as int;
                let lower = if t.pool.busy(v.ids.last()) {
                    t.mint_into(mon, act, k)
                } else {
                    t
                };
                crate::bookends::lemma_mint_into_leads(lower, mon, act, 0);
                assert(lower.before(u));
                if t.pool.busy(v.ids.last()) {
                    lemma_mint_into_steady(t, mon, act, k, o);
                }
                if t.monitors[mon].empty_workspace_above_first && t.pool.busy(v.ids[0]) {
                    lemma_mint_into_steady(lower, mon, act, 0, o);
                    lemma_steady_trans(t, lower, u, o);
                }
            }
        }
        lemma_steady_trans(s, t, u, o);
    }
}

/// Putting in missing bookends is steady.
pub proof fn lemma_normalize_steady(s: LayoutModel, n: int, o: Output)
    requires
        s.staffed(),
        n <= s.monitors.len(),
        s.normalize_mons(n).fits(),
    ensures
        steady(s, s.normalize_mons(n), o),
    decreases n,
{
    lemma_steady_acts(s, s, o);
    if n > 0 {
        let t = s.normalize_mons(n - 1);
        let k = s.acts.list.len() as int;
        crate::bookends::lemma_normalize_mons_leads(s, n - 1, n - 1);
        crate::bookends::lemma_normalize_acts_leads(t, n - 1, k, k);
        lemma_normalize_steady(s, n - 1, o);
        lemma_normalize_acts_steady(t, n - 1, k, o);
        lemma_steady_trans(s, t, s.normalize_mons(n), o);
    }
}

/// Putting workspaces into the views that they belong to is steady.
pub proof fn lemma_install_all_steady(s: LayoutModel, mon: int, ids: Seq<WorkspaceId>, o: Output)
    requires
        s.staffed(),
        s.install_all(mon, ids).fits(),
    ensures
        steady(s, s.install_all(mon, ids), o),
    decreases ids.len(),
{
    lemma_steady_acts(s, s, o);
    if ids.len() > 0 {
        let rest = ids.drop_last();
        let t = s.install_all(mon, rest);
        let id = ids.last();
        let n = t.acts.list.len() as int;
        let out = t.monitors[mon].output.id;
        let u = t.install_members(out, id, n);
        crate::outputs::lemma_install_leads(t, mon, id);
        lemma_install_all_steady(s, mon, rest, o);
        crate::outputs::lemma_install_members_leads(t, out, id, n);
        lemma_install_members_next(t, out, id, n);
        lemma_steady_acts(t, u, o);
        if t.lacks_member(out, id, n) {
            lemma_normalize_steady(u, u.monitors.len() as int, o);
            lemma_steady_trans(t, u, u.normalize(), o);
        }
        lemma_steady_trans(s, t, s.install_all(mon, ids), o);
    }
}

/// Putting a workspace into views hands out no activity id.
pub proof fn lemma_install_members_next(s: LayoutModel, out: OutputId, id: WorkspaceId, n: int)
    ensures
        s.install_members(out, id, n).acts.next == s.acts.next,
    decreases n,
{
    if n > 0 {
        lemma_install_members_next(s, out, id, n - 1);
    }
}

/// Moving workspaces over to another output is steady.
pub proof fn lemma_migrate_all_steady(
    s: LayoutModel,
    act: ActivityId,
    ids: Seq<WorkspaceId>,
    output: Output,
    o: Output,
)
    requires
        s.staffed(),
        fair(output, o),
    ensures
        steady(s, s.migrate_all(act, ids, output), o),
    decreases ids.len(),
{
    lemma_steady_acts(s, s, o);
    if ids.len() > 0 {
        let t = s.migrate_all(act, ids.drop_last(), output);
        lemma_migrate_all_steady(s, act, ids.drop_last(), output, o);
        let id = ids.last();
        let a = LayoutModel { pool: t.pool.unbind(id), ..t };
        let b = LayoutModel { pool: a.pool.bind(id, output), ..t };
        lemma_bind_steady(t, id, output, o);
        lemma_bind_steady(a, id, output, o);
        assert(b == LayoutModel { pool: a.pool.bind(id, output), ..a });
        lemma_steady_trans(t, a, b, o);
        let u = t.migrate(act, id, output);
        if let Some(v) = b.view_of(act, output.id) {
            if v.ids.len() > 0 {
                lemma_with_view_steady(b, act, output.id, v.insert(v.ids.len() - 1, id), o);
                lemma_steady_trans(t, b, u, o);
            }
        }
        lemma_steady_trans(s, t, u, o);
    }
}

/// Moving what several activities show over to another output is steady.
pub proof fn lemma_migrate_from_steady(
    s: LayoutModel,
    pool: PoolModel,
    from: Seq<ActivityModel>,
    out: OutputId,
    output: Output,
    o: Output,
)
    requires
        s.staffed(),
        fair(output, o),
    ensures
        steady(s, s.migrate_from(pool, from, out, output), o),
    decreases from.len(),
{
    lemma_steady_acts(s, s, o);
    if from.len() > 0 {
        let t = s.migrate_from(pool, from.drop_last(), out, output);
        lemma_migrate_from_steady(s, pool, from.drop_last(), out, output, o);
        let ids = movers(pool, from.last(), out);
        lemma_migrate_all_steady(t, from.last().id, ids, output, o);
        lemma_steady_trans(s, t, t.migrate_all(from.last().id, ids, output), o);
    }
}

/// None of the first occurrences of workspaces without windows or a name is in use.
pub proof fn lemma_doomed(p: PoolModel, ids: Seq<WorkspaceId>, q: PoolModel, more: Seq<WorkspaceId>)
    requires
        forall|x: WorkspaceId| #[trigger] q.busy(x) ==> p.busy(x),
    ensures
        ({
            let d = firsts(ids.filter(idle(p)) + more.filter(idle(q)));
            forall|i: int| 0 <= i < d.len() ==> !q.busy(#[trigger] d[i])
        }),
{
    let a = ids.filter(idle(p));
    let b = more.filter(idle(q));
    let d = firsts(a + b);
    lemma_firsts(a + b);
    lemma_filter(ids, idle(p));
    lemma_filter(more, idle(q));
    assert forall|i: int| 0 <= i < d.len() implies !q.busy(#[trigger] d[i]) by {
        let x = d[i];
        assert(d.contains(x));
        assert((a + b).contains(x));
        let k = choose|k: int| 0 <= k < (a + b).len() && (a + b)[k] == x;
        if k < a.len() {
            assert(a[k] == x);
            assert(a.contains(x));
        } else {
            assert(b[k - a.len()] == x);
            assert(b.contains(x));
        }
    }
}

/// Putting everything away is steady.
pub proof fn lemma_park_all_steady(s: LayoutModel, shown: Seq<WorkspaceId>, out: OutputId, o: Output)
    requires
        s.staffed(),
    ensures
        steady(s, s.park_all(shown, out), o),
{
    let all = shown + residents(s.acts.list, out);
    let parked = firsts(all.filter(worth_keeping(s.pool)));
    let doomed = firsts(all.filter(idle(s.pool)));
    let a = s.drop_views(out);
    crate::disconnect::lemma_drop_views_leads(s, out);
    lemma_steady_acts(s, a, o);
    lemma_unbind_all_steady(a, parked, o);
    let b = LayoutModel { pool: a.pool.unbind_all(parked), ..a };
    lemma_steady_trans(s, a, b, o);
    let c = LayoutModel { parked, primary: 0, focused: 0, ..b };
    lemma_steady_acts(b, c, o);
    lemma_steady_trans(s, b, c, o);
    lemma_unbind_all_busy(s.pool, parked);
    assert forall|i: int| 0 <= i < doomed.len() implies !c.pool.busy(#[trigger] doomed[i]) by {
        lemma_firsts(all.filter(idle(s.pool)));
        lemma_filter(all, idle(s.pool));
        assert(doomed.contains(doomed[i]));
    }
    lemma_destroy_all_steady(c, doomed, o);
    lemma_steady_trans(s, c, c.destroy_all(doomed), o);
}

/// Unbinding makes no workspace one with windows or a name.
pub proof fn lemma_unbind_all_busy(p: PoolModel, ids: Seq<WorkspaceId>)
    ensures
        forall|x: WorkspaceId| #[trigger] p.unbind_all(ids).busy(x) == p.busy(x),
    decreases ids.len(),
{
    if ids.len() > 0 {
        let q = p.unbind_all(ids.drop_last());
        lemma_unbind_all_busy(p, ids.drop_last());
        let id = ids.last();
        lemma_get(q, id);
        if let Some(w) = q.get(id) {
            lemma_get_put(q, id, w.unbind());
            assert forall|x: WorkspaceId| #[trigger] p.unbind_all(ids).busy(x) == p.busy(x) by {
                assert(q.busy(x) == p.busy(x));
                if x != id {
                    assert(q.put(id, w.unbind()).get(x) == q.get(x));
                }
            }
        }
    }
}

/// Folding the workspaces of an output into the primary monitor is steady.
pub proof fn lemma_fold_steady(s: LayoutModel, shown: Seq<WorkspaceId>, out: OutputId, o: Output)
    requires
        s.staffed(),
        0 <= s.primary < s.monitors.len(),
        fair(s.monitors[s.primary].output, o),
        s.fold_into_primary(shown, out).fits(),
    ensures
        steady(s, s.fold_into_primary(shown, out), o),
{
    let kept = shown.filter(worth_keeping(s.pool));
    let output = s.monitors[s.primary].output;
    let s0 = LayoutModel { pool: s.pool.unbind_all(kept), ..s };
    let s1 = s0.append(s.primary, kept);
    let idles = residents(s1.acts.list, out).filter(idle(s1.pool));
    let doomed = firsts(shown.filter(idle(s.pool)) + idles);
    let s2 = s1.drop_views(out);
    let s3 = s2.migrate_from(s1.pool, s1.acts.list, out, output);
    let s4 = s3.destroy_all(doomed);
    let t = s4.ensure_all();
    crate::materialize::lemma_ensure_all_leads(s4);
    crate::reclaim::lemma_destroy_all_leads(s3, doomed);
    crate::disconnect::lemma_migrate_from_leads(s2, s1.pool, s1.acts.list, out, output);
    crate::disconnect::lemma_drop_views_leads(s1, out);
    assert(s1.fits());
    lemma_unbind_all_steady(s, kept, o);
    lemma_append_steady(s0, s.primary, kept, o);
    lemma_steady_trans(s, s0, s1, o);
    lemma_steady_acts(s1, s2, o);
    lemma_migrate_from_steady(s2, s1.pool, s1.acts.list, out, output, o);
    lemma_steady_trans(s1, s2, s3, o);
    lemma_steady_trans(s, s1, s3, o);
    lemma_doomed(s.pool, shown, s1.pool, residents(s1.acts.list, out));
    assert forall|i: int| 0 <= i < doomed.len() implies !s3.pool.busy(#[trigger] doomed[i]) by {
        assert(!s1.pool.busy(doomed[i]));
    }
    lemma_destroy_all_steady(s3, doomed, o);
    lemma_steady_trans(s, s3, s4, o);
    lemma_ensure_rows_steady(s4, s4.acts.list.len() as int, o);
    lemma_steady_trans(s, s4, t, o);
}

/// Disconnecting an output is steady.
pub proof fn lemma_remove_output_steady(s: LayoutModel, idx: int, o: Output)
    requires
        s.staffed(),
        0 <= idx < s.monitors.len(),
        0 <= s.primary < s.monitors.len(),
        forall|k: int|
            0 <= k < s.monitors.len() && k != idx ==> fair((#[trigger] s.monitors[k]).output, o),
        s.remove_output(idx).fits(),
    ensures
        steady(s, s.remove_output(idx), o),
{
    let m = s.monitors[idx];
    let out = m.output.id;
    lemma_steady_acts(s, s, o);
    if let Some(v) = s.active_view(out) {
        let t = LayoutModel {
            acts: s.acts.drop_view(s.acts.active, out),
            monitors: s.monitors.remove(idx),
            remembered: crate::disconnect::noted(s.remembered, m.output.connector, v.active),
            ..s
        };
        lemma_drop_view_ids(s.acts, s.acts.active, out);
        if t.monitors.len() == 0 {
            lemma_steady_acts(s, t, o);
            lemma_park_all_steady(t, v.ids, out, o);
            lemma_steady_trans(s, t, t.park_all(v.ids, out), o);
        } else {
            let u = LayoutModel {
                primary: index_after(s.primary, idx),
                focused: index_after(s.focused, idx),
                ..t
            };
            lemma_steady_acts(s, u, o);
            let p = u.primary;
            let k = if p < idx {
                p
            } else {
                p + 1
            };
            assert(u.monitors[p] == s.monitors[k]);
            lemma_fold_steady(u, v.ids, out, o);
            lemma_steady_trans(s, u, u.fold_into_primary(v.ids, out), o);
        }
    }
}

/// Dropping a view changes neither which activities there are nor their order.
pub proof fn lemma_drop_view_ids(s: ActivitiesModel, act: ActivityId, out: OutputId)
    ensures
        s.drop_view(act, out).ids() == s.ids(),
{
    crate::search::lemma_find_from(s.list, crate::activity::named(act), 0);
    if let Some(a) = s.get(act) {
        lemma_put_ids(s, act, a.drop_view(out));
    }
}

/// Opening a monitor is steady.
pub proof fn lemma_open_monitor_steady(
    s: LayoutModel,
    m: Monitor,
    body: Seq<WorkspaceId>,
    remembered: Option<WorkspaceId>,
    o: Output,
)
    requires
        s.staffed(),
        fair(m.output, o),
        s.open_monitor(m, body, remembered).fits(),
    ensures
        steady(s, s.open_monitor(m, body, remembered), o),
{
    let out = m.output.id;
    let act = s.acts.active;
    let t = s.open_monitor(m, body, remembered);
    let p0 = s.pool.bind_all(body, m.output);
    let bottom = p0.next_id();
    let p1 = p0.mint(out, act);
    let top = if m.empty_workspace_above_first && body.len() > 0 {
        Some(p1.next_id())
    } else {
        None
    };
    let v = framed(body, bottom, top);
    let w = match remembered {
        Some(r) => if body.contains(r) {
            ViewModel { active: r, ..v }
        } else {
            v
        },
        None => v,
    };
    lemma_add_view_ids(s.acts, act, out, w);
    crate::outputs::lemma_bind_all_next(s.pool, body, m.output);
    let a = LayoutModel { pool: p0, ..s };
    lemma_bind_all_steady(s, body, m.output, o);
    let b = LayoutModel { pool: p1, ..s };
    lemma_mint_steady(a, b, out, act, o);
    lemma_steady_trans(s, a, b, o);
    if top is Some {
        lemma_mint_steady(b, t, out, act, o);
    } else {
        lemma_steady_acts(b, t, o);
    }
    lemma_steady_trans(s, b, t, o);
}

/// Turning views to other workspaces is steady.
pub proof fn lemma_turn_steady(s: LayoutModel, out: OutputId, act: ActivityId, r: WorkspaceId, o: Output)
    requires
        s.staffed(),
    ensures
        steady(s, s.reseat(out, act), o),
        steady(s, s.turn_members(out, r), o),
{
    assert(s.reseat(out, act).acts.ids() =~= s.acts.ids()) by {
        assert forall|i: int| 0 <= i < s.acts.list.len() implies (
        #[trigger] s.reseat(out, act).acts.list[i]).id == s.acts.list[i].id by {
            assert(reseated(s.pool, s.acts.list[i], out).id == s.acts.list[i].id);
        }
    }
    assert(s.turn_members(out, r).acts.ids() =~= s.acts.ids()) by {
        assert forall|i: int| 0 <= i < s.acts.list.len() implies (
        #[trigger] s.turn_members(out, r).acts.list[i]).id == s.acts.list[i].id by {
            assert(turned_to(s.acts.list[i], out, r).id == s.acts.list[i].id);
        }
    }
    lemma_steady_acts(s, s.reseat(out, act), o);
    lemma_steady_acts(s, s.turn_members(out, r), o);
}

/// Connecting the first output is steady.
pub proof fn lemma_add_first_steady(s: LayoutModel, m: Monitor, o: Output)
    requires
        s.staffed(),
        fair(m.output, o),
        s.add_first_output(m).fits(),
    ensures
        steady(s, s.add_first_output(m), o),
{
    let act = s.acts.active;
    let out = m.output.id;
    let drained = s.parked;
    let members = drained.filter(crate::outputs::of_activity(s.pool, act));
    let others = drained.filter(crate::outputs::not_of_activity(s.pool, act));
    let remembered = crate::outputs::recalled(s.remembered, m.output.connector);
    let s1 = LayoutModel { parked: Seq::empty(), ..s.forget(m.output.connector) };
    let s1b = s1.open_monitor(m, members, remembered);
    let s2 = LayoutModel { primary: 0, focused: 0, ..s1b };
    let s3 = LayoutModel { pool: s2.pool.bind_all(others, m.output), ..s2 };
    let s3b = s3.ensure_all();
    let s3c = s3b.install_all(0, drained);
    let s4 = s3c.reseat(out, act);
    crate::outputs::lemma_bind_all_next(s2.pool, others, m.output);
    crate::materialize::lemma_ensure_all_leads(s3);
    assert(drained.take(drained.len() as int) =~= drained);
    crate::outputs::lemma_install_all_leads(s3b, 0, drained, drained.len() as int);
    lemma_steady_acts(s, s1, o);
    lemma_open_monitor_steady(s1, m, members, remembered, o);
    lemma_steady_trans(s, s1, s1b, o);
    lemma_steady_acts(s1b, s2, o);
    lemma_steady_trans(s, s1b, s2, o);
    lemma_bind_all_steady(s2, others, m.output, o);
    lemma_steady_trans(s, s2, s3, o);
    lemma_ensure_rows_steady(s3, s3.acts.list.len() as int, o);
    lemma_steady_trans(s, s3, s3b, o);
    lemma_install_all_steady(s3b, 0, drained, o);
    lemma_steady_trans(s, s3b, s3c, o);
    lemma_turn_steady(s3c, out, act, WorkspaceId(0), o);
    lemma_steady_trans(s, s3c, s4, o);
    if let Some(r) = remembered {
        lemma_turn_steady(s4, out, act, r, o);
        lemma_steady_trans(s, s4, s4.turn_members(out, r), o);
    }
}

/// Peeling workspaces off the primary monitor is steady.
pub proof fn lemma_peel_primary_steady(s: LayoutModel, output: Output, o: Output)
    requires
        s.staffed(),
    ensures
        steady(s, s.peel_primary(output), o),
{
    let p = s.monitors[s.primary];
    let out = p.output.id;
    let leading = p.empty_workspace_above_first;
    lemma_steady_acts(s, s, o);
    if let Some(v) = s.active_view(out) {
        let w = crate::connect::peel(s.pool, v, output, leading, v.ids.len() as int);
        let going = v.ids.filter(leaving(s.pool, output));
        let stopped = going.len() > 0 && p.workspace_switch is Some;
        let s1 = LayoutModel { pool: s.pool.unbind_all(going), ..s };
        lemma_unbind_all_steady(s, going, o);
        let s2 = s1.with_view(s.acts.active, out, w);
        lemma_with_view_steady(s1, s.acts.active, out, w, o);
        lemma_steady_trans(s, s1, s2, o);
        let s3 = if stopped {
            s2.settle(s.primary)
        } else {
            s2
        };
        lemma_steady_acts(s2, s3, o);
        lemma_steady_trans(s, s2, s3, o);
        lemma_clean_up_steady(s3, s.primary, o);
        lemma_steady_trans(s, s3, s3.clean_up(s.primary), o);
    }
}

/// Connecting a further output is steady.
pub proof fn lemma_add_further_steady(s: LayoutModel, m: Monitor, o: Output)
    requires
        s.staffed(),
        fair(m.output, o),
        s.add_further_output(m).fits(),
    ensures
        steady(s, s.add_further_output(m), o),
{
    let output = m.output;
    let remembered = crate::outputs::recalled(s.remembered, output.connector);
    let shown = match s.active_view(s.monitors[s.primary].output.id) {
        Some(v) => v.ids,
        None => Seq::empty(),
    };
    let body = shown.filter(coming_along(s.pool, output));
    let doomed = shown.filter(left_behind(s.pool, output));
    let s1 = s.peel_primary(output);
    let s2 = s1.forget(output.connector);
    let s3 = s2.open_monitor(m, body, remembered);
    let s4 = s3.destroy_all(doomed);
    let t = s4.ensure_all();
    crate::materialize::lemma_ensure_all_leads(s4);
    crate::reclaim::lemma_destroy_all_leads(s3, doomed);
    assert(s3.fits());
    lemma_peel_primary_steady(s, output, o);
    lemma_steady_acts(s1, s2, o);
    lemma_steady_trans(s, s1, s2, o);
    lemma_open_monitor_steady(s2, m, body, remembered, o);
    lemma_steady_trans(s, s2, s3, o);
    lemma_filter(shown, left_behind(s.pool, output));
    assert forall|i: int| 0 <= i < doomed.len() implies !s3.pool.busy(#[trigger] doomed[i]) by {
        assert(doomed.contains(doomed[i]));
        assert(!s.pool.busy(doomed[i]));
    }
    lemma_destroy_all_steady(s3, doomed, o);
    lemma_steady_trans(s, s3, s4, o);
    lemma_ensure_rows_steady(s4, s4.acts.list.len() as int, o);
    lemma_steady_trans(s, s4, t, o);
}

/// Connecting an output is steady.
pub proof fn lemma_add_output_steady(s: LayoutModel, output: Output, leading: Option<bool>, o: Output)
    requires
        s.staffed(),
        fair(output, o),
        s.add_output(output, leading).fits(),
    ensures
        steady(s, s.add_output(output, leading), o),
{
    let m = Monitor {
        output,
        empty_workspace_above_first: match leading {
            Some(b) => b,
            None => s.options.empty_workspace_above_first,
        },
        workspace_switch: None,
        activity_switch: None,
        overview_open: s.overview_open,
        dnd_scroll: false,
    };
    if s.monitors.len() == 0 {
        lemma_add_first_steady(s, m, o);
    } else {
        lemma_add_further_steady(s, m, o);
    }
}

} // verus!
