//! Operations on activities and outputs leave the layout in order.

use vstd::prelude::*;

use crate::activity::ActivitiesModel;
use crate::census::{
    gist, lemma_has, lemma_leads_gist, lemma_push_tally, lemma_put_tally, lemma_same_tally,
    switches, tally,
};
use crate::config::WorkspaceDeclModel;
use crate::ids::{ActivityId, WindowId, WorkspaceId};
use crate::layout::LayoutModel;
use crate::load::{
    lemma_collapse_all_load, lemma_collapse_load, lemma_destroy_all_load, lemma_ensure_all_load,
    lemma_normalize_load, lemma_reclaim_all_load, lemma_reclaim_load, lemma_reconcile_load,
};
use crate::materialize::lemma_ensure_all_leads;
use crate::membership::absent_from;
use crate::ordering::{
    lemma_attach_order, lemma_leads_order, lemma_normalize_order, lemma_orders,
    lemma_orders_trans, orders,
};
use crate::reconcile::Stray;

verus! {

/// Adding a workspace to an activity keeps the layout in order.
pub proof fn lemma_join_order(s: LayoutModel, id: WorkspaceId, act: ActivityId)
    ensures
        orders(s, s.join(id, act)),
{
    broadcast use {lemma_put_tally, lemma_normalize_load};

    crate::membership::lemma_join_leads(s, id, act);
    let t = s.join(id, act);
    assert forall|w: WindowId| #[trigger] tally(t.pool.items, w) <= tally(s.pool.items, w) by {
        let s1 = LayoutModel { pool: s.pool.set_activities(id, s.activities_of(id).push(act)), ..s };
        assert(tally(s1.pool.items, w) == tally(s.pool.items, w));
    }
    lemma_leads_order(s, t);
}

/// Removing a workspace from an activity keeps the layout in order.
pub proof fn lemma_part_order(s: LayoutModel, id: WorkspaceId, act: ActivityId)
    ensures
        orders(s, s.part(id, act)),
{
    broadcast use {
        lemma_put_tally,
        lemma_ensure_all_load,
        lemma_collapse_load,
        lemma_reclaim_load,
        crate::membership::lemma_unshow_leads,
    };

    crate::membership::lemma_part_leads(s, id, act);
    let t = s.part(id, act);
    let s1 = if act == s.acts.active {
        s.snap_all()
    } else {
        s
    };
    let s2 = LayoutModel {
        pool: s1.pool.set_activities(
            id,
            s.activities_of(id).filter(crate::switching::other_than(act)),
        ),
        ..s1
    };
    assert forall|w: WindowId| #[trigger] tally(t.pool.items, w) <= tally(s.pool.items, w) by {
        assert(tally(s2.pool.items, w) == tally(s.pool.items, w));
    }
    lemma_leads_order(s, t);
}

/// Giving a workspace other activities keeps the layout in order.
pub proof fn lemma_reassign_order(s: LayoutModel, id: WorkspaceId, new: Seq<ActivityId>)
    ensures
        orders(s, s.reassign(id, new)),
{
    broadcast use {
        lemma_put_tally,
        lemma_ensure_all_load,
        lemma_collapse_all_load,
        lemma_reclaim_load,
        lemma_normalize_load,
    };

    let old = s.activities_of(id);
    let gone = old.filter(absent_from(new));
    let come = new.filter(absent_from(old));
    if !(gone.len() == 0 && come.len() == 0) {
        let s1 = if s.reassign_affects(id, new) {
            s.snap_all()
        } else {
            s
        };
        assert(switches(s1.monitors) =~= switches(s.monitors));
        assert(orders(s, s1));
        let s2 = LayoutModel { pool: s1.pool.set_activities(id, new), ..s1 };
        assert(orders(s1, s2));
        let s3 = s2.unshow_from(gone, id);
        crate::membership::lemma_unshow_from_leads(s2, gone, id);
        lemma_leads_order(s2, s3);
        let s4 = match s.holding_output(id) {
            Some(out) => s3.enlist_all(come, out, id),
            None => s3,
        };
        if let Some(out) = s.holding_output(id) {
            crate::membership::lemma_enlist_all_leads(s3, come, out, id);
            lemma_leads_order(s3, s4);
        }
        let connected = match s.holding_output(id) {
            Some(out) => s.monitor_pos(out) is Some,
            None => false,
        };
        let s5 = if s4.pool.busy(id) && connected {
            s4.normalize()
        } else {
            s4
        };
        lemma_normalize_order(s4);
        let s6 = if s2.unshow_empties(gone, id) {
            s5.ensure_all()
        } else {
            s5
        };
        lemma_ensure_all_leads(s5);
        lemma_leads_order(s5, s5.ensure_all());
        let s7 = s6.collapse_all(s2.unshow_thins(gone, id));
        crate::reconcile::lemma_collapse_all_leads(s6, s2.unshow_thins(gone, id));
        lemma_leads_order(s6, s7);
        crate::reclaim::lemma_reclaim_leads(s7, id);
        lemma_leads_order(s7, s7.reclaim(id));
        let t = s.reassign(id, new);
        lemma_orders_trans(s, s1, s2);
        lemma_orders_trans(s, s2, s3);
        lemma_orders_trans(s, s3, s4);
        lemma_orders_trans(s, s4, s5);
        lemma_orders_trans(s, s5, s6);
        lemma_orders_trans(s, s6, s7);
        lemma_orders_trans(s, s7, t);
    }
}

/// Making a workspace sticky, or the opposite, keeps the layout in order.
pub proof fn lemma_sticky_order(s: LayoutModel, id: WorkspaceId, sticky: bool)
    ensures
        orders(s, (LayoutModel { pool: s.pool.set_sticky(id, sticky), ..s })),
{
    broadcast use lemma_put_tally;

}

/// Making a workspace sticky keeps the layout in order.
pub proof fn lemma_stick_order(s: LayoutModel, id: WorkspaceId)
    ensures
        orders(s, s.stick(id)),
{
    let all = crate::membership::distinct(s.acts.ids());
    let a = s.reassign(id, all);
    lemma_reassign_order(s, id, all);
    lemma_sticky_order(a, id, true);
    lemma_orders_trans(s, a, s.stick(id));
}

/// Whether a switch to activity `target` would not leave a monitor sliding away from it: slides
/// are armed anew, or none comes from there.
pub open spec fn free_to_switch(s: LayoutModel, target: ActivityId) -> bool {
    s.options.animate_activity_switch || forall|m: int|
        0 <= m < s.monitors.len() ==> match (#[trigger] s.monitors[m]).activity_switch {
            Some(a) => a.from != target,
            None => true,
        }
}

impl LayoutModel {
    /// Whether the switch away from activity `target`, if it is active, leaves no monitor sliding
    /// away from the activity that takes its place.
    pub open spec fn free_to_remove(self, target: ActivityId) -> bool {
        target == self.acts.active && self.successor(target) is Some ==> free_to_switch(
            self,
            self.successor(target).unwrap(),
        )
    }

    /// Whether the switch away from the activities `gone`, if one of them is active, leaves no
    /// monitor sliding away from the activity that takes its place.
    pub open spec fn free_to_remove_all(self, gone: Seq<ActivityId>) -> bool {
        gone.contains(self.acts.active) && self.refuge(gone) is Some ==> free_to_switch(
            self,
            self.refuge(gone).unwrap(),
        )
    }
}

/// Switching activities keeps the layout in order.
pub proof fn lemma_switch_order(s: LayoutModel, target: ActivityId)
    requires
        s.acts.has(s.acts.active),
        free_to_switch(s, target),
    ensures
        s.orderly() ==> s.switch_activity(target).orderly(),
{
    broadcast use {lemma_ensure_all_load, lemma_leads_gist};

    if s.orderly() && target != s.acts.active && s.acts.has(target) {
        let t = s.switch_activity(target);
        let a = LayoutModel { acts: s.acts.set_active(target), ..s.settle_all() };
        let b = a.ensure_all();
        crate::coherence::lemma_act(s.acts, target);
        assert(a.acts.ids() =~= s.acts.ids());
        assert(switches(a.monitors) =~= switches(s.monitors));
        lemma_ensure_all_leads(a);
        assert(gist(b) == gist(a));
        assert(switches(b.monitors).len() == b.monitors.len());
        assert(switches(s.monitors).len() == s.monitors.len());
        lemma_has(s.acts, s.acts.active);
        lemma_has(t.acts, s.acts.active);
        assert forall|w: WindowId| #[trigger] t.census(w) <= 1 by {
            assert(s.census(w) <= 1);
            assert(tally(b.pool.items, w) == tally(a.pool.items, w));
        }
        assert forall|m: int| 0 <= m < t.monitors.len() implies t.monitor_agrees(
            #[trigger] t.monitors[m],
        ) by {
            assert(switches(b.monitors)[m] == switches(s.monitors)[m]);
            assert(s.monitor_agrees(s.monitors[m]));
            if let Some(x) = s.monitors[m].activity_switch {
                lemma_has(s.acts, x.from);
                lemma_has(t.acts, x.from);
            }
        }
        assert forall|i: int, j: int|
            0 <= i < j < t.monitors.len() && (#[trigger] t.monitors[i]).activity_switch is Some && (
            #[trigger] t.monitors[j]).activity_switch is Some implies t.monitors[i].activity_switch
            == t.monitors[j].activity_switch by {
            assert(switches(b.monitors)[i] == switches(s.monitors)[i]);
            assert(switches(b.monitors)[j] == switches(s.monitors)[j]);
            if s.monitors[i].activity_switch is Some && s.monitors[j].activity_switch is Some {
                assert(s.monitors[i].activity_switch == s.monitors[j].activity_switch);
            }
        }
    }
}

/// More activities, the active one kept, leave the layout in order.
pub proof fn lemma_more_order(s: LayoutModel, t: LayoutModel)
    requires
        s.orderly(),
        t.monitors == s.monitors,
        t.overview_open == s.overview_open,
        t.moving == s.moving,
        t.acts.active == s.acts.active,
        forall|a: ActivityId| #[trigger] s.acts.has(a) ==> t.acts.has(a),
        forall|w: WindowId| #[trigger] tally(t.pool.items, w) <= tally(s.pool.items, w),
    ensures
        t.orderly(),
{
    assert forall|w: WindowId| #[trigger] t.census(w) <= 1 by {
        assert(s.census(w) <= 1);
        assert(tally(t.pool.items, w) <= tally(s.pool.items, w));
    }
    assert forall|m: int| 0 <= m < t.monitors.len() implies t.monitor_agrees(
        #[trigger] t.monitors[m],
    ) by {
        assert(s.monitor_agrees(s.monitors[m]));
    }
}

/// Bringing views in agreement with membership keeps the layout in order.
pub proof fn lemma_reconcile_order(s: LayoutModel)
    ensures
        orders(s, s.reconcile()),
        orders(s, s.ensure_all()),
        orders(s, s.ensure_all().reconcile()),
{
    broadcast use {lemma_ensure_all_load, lemma_reconcile_load};

    let e = s.ensure_all();
    lemma_ensure_all_leads(s);
    lemma_leads_order(s, e);
    crate::reconcile::lemma_reconcile_leads(s);
    lemma_leads_order(s, s.reconcile());
    crate::reconcile::lemma_reconcile_leads(e);
    lemma_leads_order(e, e.reconcile());
    lemma_orders_trans(s, e, e.reconcile());
}

/// Creating an activity keeps the layout in order.
pub proof fn lemma_create_order(s: LayoutModel, name: Seq<char>)
    ensures
        s.orderly() ==> s.create_activity(name).orderly(),
{
    if s.orderly() {
        let a = LayoutModel {
            acts: ActivitiesModel {
                list: s.acts.list.push(
                    crate::activity::ActivityModel {
                        id: ActivityId(s.acts.next as u64),
                        name,
                        declared: false,
                        last_active_seq: 0,
                        views: Seq::empty(),
                    },
                ),
                next: s.acts.next + 1,
                ..s.acts
            },
            pool: s.pool.stick_all(ActivityId(s.acts.next as u64)),
            ..s
        };
        assert forall|x: ActivityId| #[trigger] s.acts.has(x) implies a.acts.has(x) by {
            crate::coherence::lemma_act(s.acts, x);
            crate::coherence::lemma_act(a.acts, x);
            let i = s.acts.pos(x).unwrap();
            assert(a.acts.list[i].id == x);
        }
        assert forall|w: WindowId| #[trigger] tally(a.pool.items, w) <= tally(s.pool.items, w) by {
            lemma_same_tally(a.pool.items, s.pool.items, w);
        }
        lemma_more_order(s, a);
        lemma_reconcile_order(a);
        lemma_orders(a, s.create_activity(name));
    }
}

/// Declaring activities keeps the layout in order.
pub proof fn lemma_declare_order(s: LayoutModel, names: Seq<Seq<char>>, decls: Seq<WorkspaceDeclModel>)
    requires
        crate::coherence::acts_ok(s.acts),
        s.declare_activities(names, decls).fits(),
    ensures
        s.orderly() ==> s.declare_activities(names, decls).orderly(),
{
    let given = s.acts.declare_all(names);
    let acts = given.reorder(s.acts.ids_declared(names));
    let d = LayoutModel { acts, pool: s.pool.reassign_all(acts, decls), ..s };
    let e = d.ensure_all();
    crate::reload::lemma_reorder_counts(given, s.acts.ids_declared(names));
    lemma_ensure_all_leads(d);
    crate::reconcile::lemma_reconcile_leads(e);
    crate::reloading::lemma_declare_all_carries(s.acts, names);
    crate::reloading::lemma_reorder_carries(given, s.acts.ids_declared(names));
    crate::reloading::lemma_carries_trans(s.acts, given, acts);
    if s.orderly() {
        assert forall|w: WindowId| #[trigger] tally(d.pool.items, w) <= tally(s.pool.items, w) by {
            lemma_same_tally(d.pool.items, s.pool.items, w);
        }
        lemma_more_order(s, d);
        lemma_reconcile_order(d);
        lemma_orders(d, s.declare_activities(names, decls));
    }
}

/// Opening a declared workspace keeps the layout in order.
pub proof fn lemma_open_named_order(s: LayoutModel, d: WorkspaceDeclModel)
    requires
        s.monitors.len() > 0 ==> 0 <= s.opening_monitor(d) < s.monitors.len(),
    ensures
        orders(s, s.ensure_named(d)),
{
    broadcast use {lemma_push_tally, lemma_put_tally, lemma_leads_gist};

    let t = s.ensure_named(d);
    if s.monitors.len() > 0 && s.named_workspace(d.name) is None {
        let members = s.acts.declared_for(d);
        let id = s.pool.next_id();
        let mon = s.opening_monitor(d);
        let output = s.monitors[mon].output;
        let s1 = LayoutModel { pool: s.pool.mint_declared(d, members, Some(output.id)), ..s };
        assert(orders(s, s1));
        let s2 = if members.contains(s.acts.active) {
            s1.attach(mon, id, 0, false)
        } else {
            LayoutModel { pool: s1.pool.bind(id, output), ..s1 }
        };
        assert(orders(s1, s2)) by {
            lemma_attach_order(s1, mon, id, 0, false);
        }
        let more = s2.acts.ids().filter(crate::switching::elsewhere(s.acts.active, members));
        let s3 = s2.enlist_all(more, output.id, id);
        crate::membership::lemma_enlist_all_leads(s2, more, output.id, id);
        lemma_leads_order(s2, s3);
        lemma_normalize_order(s3);
        lemma_orders_trans(s, s1, s2);
        lemma_orders_trans(s, s2, s3);
        lemma_orders_trans(s, s3, t);
    }
}

/// In order, but that monitors may slide away from an activity that has just gone.
pub open spec fn nearly_orderly(s: LayoutModel) -> bool {
    &&& s.single()
    &&& forall|m: int|
        0 <= m < s.monitors.len() ==> {
            &&& (#[trigger] s.monitors[m]).overview_open == s.overview_open
            &&& match s.monitors[m].activity_switch {
                Some(a) => a.from != s.acts.active && !s.overview_open,
                None => true,
            }
        }
    &&& s.slides_agree()
}

/// An activity that goes leaves the layout in order but for slides away from it.
pub proof fn lemma_disband_order(s: LayoutModel, act: ActivityId)
    requires
        nearly_orderly(s),
    ensures
        nearly_orderly(s.disband(act)),
{
    let own = crate::materialize::ids_of(s.pool.items.filter(crate::switching::owned_by(act)));
    lemma_leave_order(s, act, own);
}

/// An activity and its workspaces that go leave the layout in order but for slides away from it.
pub proof fn lemma_leave_order(s: LayoutModel, act: ActivityId, own: Seq<WorkspaceId>)
    requires
        nearly_orderly(s),
    ensures
        ({
            let d = s.destroy_all(own);
            nearly_orderly(
                LayoutModel { pool: d.pool.leave_all(act), acts: d.acts.remove(act), ..d },
            )
        }),
{
    broadcast use {lemma_destroy_all_load, lemma_leads_gist};

    let d = s.destroy_all(own);
    let t = LayoutModel { pool: d.pool.leave_all(act), acts: d.acts.remove(act), ..d };
    crate::reclaim::lemma_destroy_all_leads(s, own);
    assert forall|w: WindowId| #[trigger] t.census(w) <= 1 by {
        lemma_same_tally(t.pool.items, d.pool.items, w);
        assert(tally(d.pool.items, w) <= tally(s.pool.items, w));
        assert(s.census(w) <= 1);
    }
    assert(t.monitors == d.monitors);
    assert(gist(d) == gist(s));
    assert(switches(d.monitors).len() == d.monitors.len());
    assert(switches(s.monitors).len() == s.monitors.len());
    assert forall|m: int| 0 <= m < t.monitors.len() implies {
        &&& (#[trigger] t.monitors[m]).overview_open == t.overview_open
        &&& match t.monitors[m].activity_switch {
            Some(a) => a.from != t.acts.active && !t.overview_open,
            None => true,
        }
    } by {
        assert(switches(d.monitors)[m] == switches(s.monitors)[m]);
        assert(s.monitors[m].overview_open == s.overview_open);
    }
    assert forall|i: int, j: int|
        0 <= i < j < t.monitors.len() && (#[trigger] t.monitors[i]).activity_switch is Some && (
        #[trigger] t.monitors[j]).activity_switch is Some implies t.monitors[i].activity_switch
        == t.monitors[j].activity_switch by {
        assert(switches(d.monitors)[i] == switches(s.monitors)[i]);
        assert(switches(d.monitors)[j] == switches(s.monitors)[j]);
        assert(s.monitors[i].activity_switch is Some);
        assert(s.monitors[j].activity_switch is Some);
    }
}

/// Activities that go leave the layout in order but for slides away from them.
pub proof fn lemma_disband_all_order(s: LayoutModel, gone: Seq<ActivityId>)
    requires
        nearly_orderly(s),
    ensures
        nearly_orderly(s.disband_all(gone)),
    decreases gone.len(),
{
    if gone.len() > 0 {
        lemma_disband_all_order(s, gone.drop_last());
        lemma_disband_order(s.disband_all(gone.drop_last()), gone.last());
    }
}

/// Ending the slides away from activities that are gone, and seeing to the views, puts the layout
/// in order.
pub proof fn lemma_disarm_order(s: LayoutModel, narrowed: Seq<WorkspaceId>)
    requires
        nearly_orderly(s),
    ensures
        s.disarm_stale().orderly(),
        s.disarm_stale().ensure_all().reclaim_all(narrowed).orderly(),
{
    broadcast use {lemma_ensure_all_load, lemma_reclaim_all_load};

    let a = s.disarm_stale();
    assert forall|w: WindowId| #[trigger] a.census(w) <= 1 by {
        assert(s.census(w) <= 1);
    }
    assert forall|m: int| 0 <= m < a.monitors.len() implies a.monitor_agrees(
        #[trigger] a.monitors[m],
    ) by {
        assert(s.monitors[m].overview_open == s.overview_open);
    }
    assert forall|i: int, j: int|
        0 <= i < j < a.monitors.len() && (#[trigger] a.monitors[i]).activity_switch is Some && (
        #[trigger] a.monitors[j]).activity_switch is Some implies a.monitors[i].activity_switch
        == a.monitors[j].activity_switch by {
        assert(s.monitors[i].activity_switch is Some);
        assert(s.monitors[j].activity_switch is Some);
    }
    let b = a.ensure_all();
    lemma_ensure_all_leads(a);
    lemma_leads_order(a, b);
    lemma_orders(a, b);
    crate::reclaim::lemma_reclaim_all_leads(b, narrowed);
    lemma_leads_order(b, b.reclaim_all(narrowed));
    lemma_orders(b, b.reclaim_all(narrowed));
}

/// Removing an activity keeps the layout in order.
pub proof fn lemma_remove_order(s: LayoutModel, target: ActivityId)
    requires
        s.acts.has(s.acts.active),
        s.free_to_remove(target),
    ensures
        s.orderly() ==> s.remove_activity(target, s.own_of(target)).orderly(),
{
    if s.orderly() {
        let s1 = s.yielded(target);
        if target == s.acts.active {
            if let Some(next) = s.successor(target) {
                lemma_switch_order(s, next);
            }
        }
        assert(nearly_orderly(s1)) by {
            assert forall|m: int| 0 <= m < s1.monitors.len() implies {
                &&& (#[trigger] s1.monitors[m]).overview_open == s1.overview_open
                &&& match s1.monitors[m].activity_switch {
                    Some(a) => a.from != s1.acts.active && !s1.overview_open,
                    None => true,
                }
            } by {
                assert(s1.monitor_agrees(s1.monitors[m]));
            }
        }
        lemma_leave_order(s1, target, s.own_of(target));
        lemma_disarm_order(s.departed(target), s.narrowed_by(target));
    }
}

/// Adopting workspaces keeps the layout in order.
pub proof fn lemma_adopt_all_order(s: LayoutModel, work: Seq<Stray>)
    ensures
        orders(s, s.adopt_all(work)),
    decreases work.len(),
{
    broadcast use lemma_put_tally;

    if work.len() > 0 {
        let a = s.adopt_all(work.drop_last());
        let t = s.adopt_all(work);
        lemma_adopt_all_order(s, work.drop_last());
        crate::reload::lemma_adopt_all_leads(a, seq![work.last()]);
        assert(seq![work.last()].drop_last() =~= Seq::<Stray>::empty());
        assert(a.adopt_all(seq![work.last()].drop_last()) == a);
        assert(t == a.adopt_all(seq![work.last()]));
        lemma_leads_order(a, t);
        lemma_orders_trans(s, a, t);
    }
}

/// Removing activities that left the configuration keeps the layout in order.
pub proof fn lemma_remove_all_order(s: LayoutModel, gone: Seq<ActivityId>)
    requires
        s.acts.has(s.acts.active),
        s.free_to_remove_all(gone),
    ensures
        s.orderly() ==> s.remove_activities(gone).orderly(),
{
    if s.orderly() {
        let s1 = s.take_refuge(gone);
        if gone.contains(s.acts.active) {
            if let Some(a) = s.refuge(gone) {
                lemma_switch_order(s, a);
            }
        }
        let work = s.orphans(gone);
        let s2 = s1.adopt_all(work);
        lemma_adopt_all_order(s1, work);
        lemma_orders(s1, s2);
        assert(nearly_orderly(s2)) by {
            assert forall|m: int| 0 <= m < s2.monitors.len() implies {
                &&& (#[trigger] s2.monitors[m]).overview_open == s2.overview_open
                &&& match s2.monitors[m].activity_switch {
                    Some(a) => a.from != s2.acts.active && !s2.overview_open,
                    None => true,
                }
            } by {
                assert(s2.monitor_agrees(s2.monitors[m]));
            }
        }
        lemma_disband_all_order(s2, gone);
        lemma_disarm_order(s2.disband_all(gone), s2.losing_any(gone));
    }
}

/// Renaming an activity keeps the layout in order.
pub proof fn lemma_rename_order(s: LayoutModel, target: ActivityId, name: Seq<char>)
    ensures
        orders(s, s.rename_activity(target, name)),
{
    let t = s.rename_activity(target, name);
    crate::coherence::lemma_act(s.acts, target);
    assert(t.acts.ids() =~= s.acts.ids());
    assert forall|w: WindowId| #[trigger] t.census(w) <= s.census(w) by {
        assert(tally(t.pool.items, w) == tally(s.pool.items, w));
    }
}

} // verus!
