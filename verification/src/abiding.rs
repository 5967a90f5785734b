//! What changes activities, and what belongs to them, keeps the layout whole.

use vstd::prelude::*;

use crate::agreeing::{free_to_switch, lemma_switch_order};
use crate::census::{lemma_put_tally, lemma_steady_load, same_load, tally};
use crate::activity::ActivitiesModel;
use crate::belonging::lemma_distinct;
use crate::changing::{lemma_yielded, lists_once};
use crate::cores::kin;
use crate::coherence::{
    acts_ok, alike, lemma_act, lemma_act_pos, lemma_get, lemma_get_put, lemma_get_remove,
    lemma_pos_of, lemma_put_alike, lemma_same_ids, member_ok, members_ok, pool_ok,
};
use crate::disbanding::lemma_refuge;
use crate::ids::{ActivityId, OutputId, WindowId, WorkspaceId};
use crate::keeping_views::lemma_ids_of_filter;
use crate::lasting::{lemma_lasts, level};
use crate::layout::LayoutModel;
use crate::lookup::ActivityReferenceArg;
use crate::materialize::{ids_of, lemma_ensure_all_leads};
use crate::membership::{absent_from, distinct};
use crate::mending::lemma_mended_leads;
use crate::pool::PoolModel;
use crate::reconcile::Stray;
use crate::search::{find, lemma_find_from};
use crate::steadying::{
    lemma_alike_members, lemma_destroy_steady, lemma_ensure_rows_steady, lemma_normalize_steady,
    lemma_steady_acts, lemma_steady_trans, spares, steady,
};
use crate::switching::{other_than, owned_by};
use crate::workspace::{Output, WorkspaceModel};

verus! {

/// No output.
pub open spec fn nowhere() -> Output {
    Output { id: OutputId(0), connector: OutputId(0) }
}

/// A workspace given other activities that exist stays in order.
pub proof fn lemma_set_activities_staffed(s: LayoutModel, id: WorkspaceId, new: Seq<ActivityId>)
    requires
        s.staffed(),
        new.len() > 0,
        forall|a: ActivityId| #[trigger] new.contains(a) ==> s.acts.has(a),
    ensures
        (LayoutModel { pool: s.pool.set_activities(id, new), ..s }).staffed(),
{
    let t = LayoutModel { pool: s.pool.set_activities(id, new), ..s };
    lemma_get(s.pool, id);
    assert forall|i: int| 0 <= i < t.pool.items.len() implies member_ok(
        t.acts,
        #[trigger] t.pool.items[i],
    ) by {
        assert(member_ok(s.acts, s.pool.items[i]));
    }
}

/// Taking a workspace out of a view is steady.
pub proof fn lemma_unshow_steady(s: LayoutModel, w: Stray)
    requires
        s.staffed(),
    ensures
        steady(s, s.unshow(w), nowhere()),
{
    crate::membership::lemma_unshow_leads(s, w);
    lemma_steady_acts(s, s.unshow(w), nowhere());
}

/// Bringing a view down to one empty workspace is steady.
pub proof fn lemma_collapse_steady(s: LayoutModel, act: ActivityId, out: OutputId)
    requires
        s.staffed(),
    ensures
        steady(s, s.collapse(act, out), nowhere()),
{
    let o = nowhere();
    lemma_steady_acts(s, s, o);
    if let Some(v) = s.view_of(act, out) {
        if v.ids.len() == 2 && s.pool.has(v.ids[0]) && crate::reclaim::doubled(
            s.pool,
            v,
            s.leading_empty(out),
        ) {
            let a = s.snap_output(out);
            lemma_steady_acts(s, a, o);
            lemma_destroy_steady(a, v.ids[1], o);
            lemma_steady_trans(s, a, a.destroy(v.ids[1]), o);
            lemma_destroy_steady(s, v.ids[1], o);
        }
    }
}

/// Bringing views down to one empty workspace is steady.
pub proof fn lemma_collapse_all_steady(s: LayoutModel, work: Seq<Stray>)
    requires
        s.staffed(),
    ensures
        steady(s, s.collapse_all(work), nowhere()),
    decreases work.len(),
{
    let o = nowhere();
    lemma_steady_acts(s, s, o);
    if work.len() > 0 {
        let t = s.collapse_all(work.drop_last());
        lemma_collapse_all_steady(s, work.drop_last());
        lemma_collapse_steady(t, work.last().act, work.last().output);
        lemma_steady_trans(s, t, s.collapse_all(work), o);
    }
}

/// Reclaiming a workspace is steady.
pub proof fn lemma_reclaim_steady(s: LayoutModel, id: WorkspaceId)
    requires
        s.staffed(),
    ensures
        steady(s, s.reclaim(id), nowhere()),
{
    let o = nowhere();
    lemma_steady_acts(s, s, o);
    if s.pool.exclusive(id) && !s.pool.busy(id) {
        let act = s.pool.get(id).unwrap().activities[0];
        if let Some(e) = s.holding_entry(act, id) {
            let a = s.snap_output(e.output);
            lemma_steady_acts(s, a, o);
            lemma_destroy_steady(a, id, o);
            lemma_steady_trans(s, a, a.destroy(id), o);
            lemma_destroy_steady(s, id, o);
        }
    }
}

/// Reclaiming workspaces is steady.
pub proof fn lemma_reclaim_all_steady(s: LayoutModel, ids: Seq<WorkspaceId>)
    requires
        s.staffed(),
    ensures
        steady(s, s.reclaim_all(ids), nowhere()),
    decreases ids.len(),
{
    let o = nowhere();
    lemma_steady_acts(s, s, o);
    if ids.len() > 0 {
        let t = s.reclaim_all(ids.drop_last());
        lemma_reclaim_all_steady(s, ids.drop_last());
        lemma_reclaim_steady(t, ids.last());
        lemma_steady_trans(s, t, s.reclaim_all(ids), o);
    }
}

/// A workspace that leaves an activity but has another one leaves everyone in place.
pub proof fn lemma_part_staffed(s: LayoutModel, id: WorkspaceId, act: ActivityId)
    requires
        s.staffed(),
        s.pool.has(id),
        exists|b: ActivityId| b != act && #[trigger] s.pool.member(id, b),
        s.part(id, act).fits(),
    ensures
        s.part(id, act).staffed(),
        same_load(s.pool, s.part(id, act).pool),
{
    broadcast use lemma_put_tally;

    let o = nowhere();
    let s1 = if act == s.acts.active {
        s.snap_all()
    } else {
        s
    };
    let old = s.activities_of(id);
    let new = old.filter(other_than(act));
    crate::belonging::lemma_filter_acts(old, other_than(act));
    let b = choose|b: ActivityId| b != act && #[trigger] s.pool.member(id, b);
    assert(new.contains(b));
    lemma_get(s.pool, id);
    let k = s.pool.pos(id).unwrap();
    assert(member_ok(s.acts, s.pool.items[k]));
    assert forall|a: ActivityId| #[trigger] new.contains(a) implies s1.acts.has(a) by {
        assert(old.contains(a));
    }
    lemma_set_activities_staffed(s1, id, new);
    let s2 = LayoutModel { pool: s1.pool.set_activities(id, new), ..s1 };
    let s3 = match s2.stray(act, id) {
        Some(w) => {
            let x = s2.unshow(w);
            if s2.empties(w) {
                x.ensure_all()
            } else if s2.thins(w) {
                x.collapse(act, w.output)
            } else {
                x
            }
        },
        None => s2,
    };
    crate::reclaim::lemma_reclaim_leads(s3, id);
    lemma_steady_acts(s2, s2, o);
    if let Some(w) = s2.stray(act, id) {
        let x = s2.unshow(w);
        lemma_unshow_steady(s2, w);
        if s2.empties(w) {
            lemma_ensure_rows_steady(x, x.acts.list.len() as int, o);
            lemma_steady_trans(s2, x, s3, o);
        } else {
            lemma_collapse_steady(x, act, w.output);
            if s2.thins(w) {
                lemma_steady_trans(s2, x, s3, o);
            }
        }
    }
    lemma_reclaim_steady(s3, id);
    let t = s.part(id, act);
    lemma_steady_trans(s2, s3, t, o);
    lemma_steady_load(s2, t, o);
    assert forall|w: WindowId| #[trigger] tally(t.pool.items, w) == tally(s.pool.items, w) by {
        assert(tally(s2.pool.items, w) == tally(s.pool.items, w));
    }
}

/// Taking a workspace out of the views of activities is steady.
pub proof fn lemma_reassign_staffed(s: LayoutModel, id: WorkspaceId, new: Seq<ActivityId>)
    requires
        s.staffed(),
        new.len() > 0,
        forall|a: ActivityId| #[trigger] new.contains(a) ==> s.acts.has(a),
        s.reassign(id, new).fits(),
    ensures
        s.reassign(id, new).staffed(),
        same_load(s.pool, s.reassign(id, new).pool),
{
    broadcast use lemma_put_tally;

    let o = nowhere();
    let old = s.activities_of(id);
    let gone = old.filter(absent_from(new));
    let come = new.filter(absent_from(old));
    if !(gone.len() == 0 && come.len() == 0) {
        let s1 = if s.reassign_affects(id, new) {
            s.snap_all()
        } else {
            s
        };
        assert forall|a: ActivityId| #[trigger] new.contains(a) implies s1.acts.has(a) by {
            assert(s.acts.has(a));
        }
        lemma_set_activities_staffed(s1, id, new);
        let s2 = LayoutModel { pool: s1.pool.set_activities(id, new), ..s1 };
        let s3 = s2.unshow_from(gone, id);
        crate::membership::lemma_unshow_from_leads(s2, gone, id);
        lemma_steady_acts(s2, s3, o);
        let s4 = match s.holding_output(id) {
            Some(out) => s3.enlist_all(come, out, id),
            None => s3,
        };
        if let Some(out) = s.holding_output(id) {
            crate::membership::lemma_enlist_all_leads(s3, come, out, id);
        }
        lemma_steady_acts(s3, s4, o);
        let connected = match s.holding_output(id) {
            Some(out) => s.monitor_pos(out) is Some,
            None => false,
        };
        let s5 = if s4.pool.busy(id) && connected {
            s4.normalize()
        } else {
            s4
        };
        let s6 = if s2.unshow_empties(gone, id) {
            s5.ensure_all()
        } else {
            s5
        };
        let s7 = s6.collapse_all(s2.unshow_thins(gone, id));
        crate::reclaim::lemma_reclaim_leads(s7, id);
        crate::reconcile::lemma_collapse_all_leads(s6, s2.unshow_thins(gone, id));
        lemma_ensure_all_leads(s5);
        assert(s6.fits() && s5.fits());
        if s4.pool.busy(id) && connected {
            lemma_normalize_steady(s4, s4.monitors.len() as int, o);
        }
        if s2.unshow_empties(gone, id) {
            lemma_ensure_rows_steady(s5, s5.acts.list.len() as int, o);
        }
        lemma_collapse_all_steady(s6, s2.unshow_thins(gone, id));
        lemma_reclaim_steady(s7, id);
        let t = s.reassign(id, new);
        lemma_steady_acts(s4, s4, o);
        lemma_steady_acts(s5, s5, o);
        lemma_steady_acts(s7, s7, o);
        assert(steady(s4, s5, o) && steady(s5, s6, o) && steady(s7, t, o));
        lemma_steady_trans(s2, s3, s4, o);
        lemma_steady_trans(s2, s4, s5, o);
        lemma_steady_trans(s2, s5, s6, o);
        lemma_steady_trans(s2, s6, s7, o);
        lemma_steady_trans(s2, s7, t, o);
        lemma_steady_load(s2, t, o);
        assert forall|w: WindowId| #[trigger] tally(t.pool.items, w) == tally(s.pool.items, w) by {
            assert(tally(s2.pool.items, w) == tally(s.pool.items, w));
        }
    }
}

/// What a reference to an activity resolves to exists.
pub proof fn lemma_referred_activity(s: LayoutModel, r: ActivityReferenceArg)
    requires
        acts_ok(s.acts),
    ensures
        match s.referred_activity(r) {
            Some(a) => s.acts.has(a),
            None => true,
        },
{
    if let ActivityReferenceArg::Name(name) = r {
        let p = crate::lookup::titled(name@);
        lemma_find_from(s.acts.list, p, 0);
        if let Some(i) = find(s.acts.list, p) {
            lemma_act_pos(s.acts, i);
        }
    }
}

/// What references to activities resolve to exists.
pub proof fn lemma_referred_activities(s: LayoutModel, refs: Seq<ActivityReferenceArg>)
    requires
        acts_ok(s.acts),
    ensures
        match s.referred_activities(refs) {
            Some(acts) => forall|a: ActivityId| #[trigger] acts.contains(a) ==> s.acts.has(a),
            None => true,
        },
    decreases refs.len(),
{
    if refs.len() > 0 {
        lemma_referred_activities(s, refs.drop_last());
        lemma_referred_activity(s, refs.last());
        if let (Some(rest), Some(x)) = (
            s.referred_activities(refs.drop_last()),
            s.referred_activity(refs.last()),
        ) {
            let acts = rest.push(x);
            assert forall|a: ActivityId| #[trigger] acts.contains(a) implies s.acts.has(a) by {
                let k = choose|k: int| 0 <= k < acts.len() && acts[k] == a;
                if k < rest.len() {
                    assert(rest[k] == a);
                    assert(rest.contains(a));
                }
            }
        }
    }
}

/// Adding a workspace to an activity keeps the layout whole and in order.
pub proof fn law_joining_keeps_whole(s: LayoutModel, id: WorkspaceId, act: ActivityId)
    requires
        s.whole(),
        s.pool.has(id),
        s.acts.has(act),
        s.join(id, act).mended().fits(),
    ensures
        s.join(id, act).mended().whole(),
        s.mindful() ==> s.join(id, act).mended().mindful(),
        s.orderly() ==> s.join(id, act).mended().orderly(),
{
    crate::agreeing::lemma_join_order(s, id, act);
    crate::ordering::lemma_orders(s, s.join(id, act));
    let t = s.join(id, act);
    lemma_mended_leads(t);
    crate::belonging::law_joining_adds_only(s, id, act);
    crate::membership::lemma_join_leads(s, id, act);
    crate::retaining::lemma_join_retains(s, id, act);
    lemma_lasts(s, t);
}

/// Removing a workspace from one of its activities keeps the layout whole and in order.
pub proof fn law_parting_keeps_whole(s: LayoutModel, id: WorkspaceId, act: ActivityId)
    requires
        s.whole(),
        s.pool.has(id),
        exists|b: ActivityId| b != act && #[trigger] s.pool.member(id, b),
        s.part(id, act).mended().fits(),
    ensures
        s.part(id, act).mended().whole(),
        s.mindful() ==> s.part(id, act).mended().mindful(),
        s.orderly() ==> s.part(id, act).mended().orderly(),
{
    crate::agreeing::lemma_part_order(s, id, act);
    crate::ordering::lemma_orders(s, s.part(id, act));
    let t = s.part(id, act);
    lemma_mended_leads(t);
    lemma_part_staffed(s, id, act);
    crate::membership::lemma_part_leads(s, id, act);
    crate::retaining::lemma_load_retains(s, t);
    lemma_lasts(s, t);
}

/// Moving a workspace from one activity to another keeps the layout whole and in order.
pub proof fn law_moving_between_activities_keeps_whole(
    s: LayoutModel,
    id: WorkspaceId,
    to: ActivityId,
    from: ActivityId,
)
    requires
        s.whole(),
        s.pool.has(id),
        s.acts.has(to),
        to != from,
        s.join(id, to).part(id, from).mended().fits(),
    ensures
        s.join(id, to).part(id, from).mended().whole(),
        s.mindful() ==> s.join(id, to).part(id, from).mended().mindful(),
        s.orderly() ==> s.join(id, to).part(id, from).mended().orderly(),
{
    crate::agreeing::lemma_join_order(s, id, to);
    crate::agreeing::lemma_part_order(s.join(id, to), id, from);
    crate::ordering::lemma_orders(s, s.join(id, to));
    crate::ordering::lemma_orders(s.join(id, to), s.join(id, to).part(id, from));
    let a = s.join(id, to);
    let t = a.part(id, from);
    lemma_mended_leads(t);
    crate::membership::lemma_join_leads(s, id, to);
    crate::membership::lemma_part_leads(a, id, from);
    crate::belonging::law_joining_adds_only(s, id, to);
    assert(a.pool.member(id, to));
    lemma_get(a.pool, id);
    lemma_part_staffed(a, id, from);
    assert(level(s, t)) by {
        assert forall|i: int| 0 <= i < s.monitors.len() implies (#[trigger] s.monitors[i]).output
            == t.monitors[i].output by {
            assert(a.monitors[i].output == t.monitors[i].output);
        }
    }
    crate::retaining::lemma_join_retains(s, id, to);
    crate::retaining::lemma_load_retains(a, t);
    crate::retaining::lemma_retains_trans(s, a, t);
    lemma_lasts(s, t);
}

/// Giving a workspace other activities leaves the outputs alone.
pub proof fn lemma_reassign_level(s: LayoutModel, id: WorkspaceId, new: Seq<ActivityId>)
    ensures
        level(s, s.reassign(id, new)),
        s.reassign(id, new).moving == s.moving,
        s.reassign(id, new).bookmarks == s.bookmarks,
{
    let old = s.activities_of(id);
    let gone = old.filter(absent_from(new));
    let come = new.filter(absent_from(old));
    if !(gone.len() == 0 && come.len() == 0) {
        let s1 = if s.reassign_affects(id, new) {
            s.snap_all()
        } else {
            s
        };
        let s2 = LayoutModel { pool: s1.pool.set_activities(id, new), ..s1 };
        let s3 = s2.unshow_from(gone, id);
        crate::membership::lemma_unshow_from_leads(s2, gone, id);
        let s4 = match s.holding_output(id) {
            Some(out) => s3.enlist_all(come, out, id),
            None => s3,
        };
        if let Some(out) = s.holding_output(id) {
            crate::membership::lemma_enlist_all_leads(s3, come, out, id);
        }
        let connected = match s.holding_output(id) {
            Some(out) => s.monitor_pos(out) is Some,
            None => false,
        };
        let s5 = if s4.pool.busy(id) && connected {
            s4.normalize()
        } else {
            s4
        };
        crate::bookends::lemma_normalize_leads(s4);
        let s6 = if s2.unshow_empties(gone, id) {
            s5.ensure_all()
        } else {
            s5
        };
        lemma_ensure_all_leads(s5);
        let s7 = s6.collapse_all(s2.unshow_thins(gone, id));
        crate::reconcile::lemma_collapse_all_leads(s6, s2.unshow_thins(gone, id));
        crate::reclaim::lemma_reclaim_leads(s7, id);
        let t = s.reassign(id, new);
        assert(level(s, s2));
        assert(level(s2, s3));
        assert(level(s3, s4));
        assert(level(s4, s5));
        assert(level(s5, s6));
        assert(level(s6, s7));
        assert(level(s7, t));
        lemma_level_trans(s, s2, s3);
        lemma_level_trans(s, s3, s4);
        lemma_level_trans(s, s4, s5);
        lemma_level_trans(s, s5, s6);
        lemma_level_trans(s, s6, s7);
        lemma_level_trans(s, s7, t);
    }
}

/// The same outputs twice over are the same outputs.
pub proof fn lemma_level_trans(s: LayoutModel, t: LayoutModel, u: LayoutModel)
    requires
        level(s, t),
        level(t, u),
    ensures
        level(s, u),
{
    assert forall|i: int| 0 <= i < s.monitors.len() implies (#[trigger] s.monitors[i]).output
        == u.monitors[i].output by {
        assert(t.monitors[i].output == u.monitors[i].output);
    }
}

/// Giving a workspace other activities keeps the layout whole and in order.
pub proof fn law_reassigning_keeps_whole(s: LayoutModel, id: WorkspaceId, new: Seq<ActivityId>)
    requires
        s.whole(),
        new.len() > 0,
        forall|a: ActivityId| #[trigger] new.contains(a) ==> s.acts.has(a),
        s.reassign(id, new).mended().fits(),
    ensures
        s.reassign(id, new).mended().whole(),
        s.mindful() ==> s.reassign(id, new).mended().mindful(),
        s.orderly() ==> s.reassign(id, new).mended().orderly(),
{
    crate::agreeing::lemma_reassign_order(s, id, new);
    crate::ordering::lemma_orders(s, s.reassign(id, new));
    let t = s.reassign(id, new);
    lemma_mended_leads(t);
    lemma_reassign_staffed(s, id, new);
    lemma_reassign_level(s, id, new);
    crate::retaining::lemma_reassign_retains(s, id, new);
    lemma_lasts(s, t);
}

/// Making a workspace sticky, or the opposite, keeps the layout whole and in order.
pub proof fn law_sticking_keeps_whole(s: LayoutModel, id: WorkspaceId)
    requires
        s.whole(),
    ensures
        s.stick(id).mended().fits() ==> s.stick(id).mended().whole(),
        s.stick(id).mended().fits() && s.mindful() ==> s.stick(id).mended().mindful(),
        s.stick(id).mended().fits() && s.orderly() ==> s.stick(id).mended().orderly(),
        (LayoutModel { pool: s.pool.set_sticky(id, false), ..s }).mended().fits() ==> (LayoutModel {
            pool: s.pool.set_sticky(id, false),
            ..s
        }).mended().whole(),
        (LayoutModel { pool: s.pool.set_sticky(id, false), ..s }).mended().fits() && s.mindful() ==> (LayoutModel {
            pool: s.pool.set_sticky(id, false),
            ..s
        }).mended().mindful(),
        (LayoutModel { pool: s.pool.set_sticky(id, false), ..s }).mended().fits() && s.orderly() ==> (LayoutModel {
            pool: s.pool.set_sticky(id, false),
            ..s
        }).mended().orderly(),
{
    crate::agreeing::lemma_stick_order(s, id);
    crate::ordering::lemma_orders(s, s.stick(id));
    crate::agreeing::lemma_sticky_order(s, id, false);
    crate::ordering::lemma_orders(s, LayoutModel { pool: s.pool.set_sticky(id, false), ..s });
    let all = distinct(s.acts.ids());
    lemma_distinct(s.acts.ids());
    assert forall|a: ActivityId| #[trigger] all.contains(a) implies s.acts.has(a) by {
        let k = choose|k: int| 0 <= k < s.acts.ids().len() && s.acts.ids()[k] == a;
        lemma_act_pos(s.acts, k);
    }
    lemma_act(s.acts, s.acts.active);
    assert(s.acts.ids()[s.acts.pos(s.acts.active).unwrap()] == s.acts.active);
    assert(all.contains(s.acts.active));
    lemma_mended_leads(s.stick(id));
    if s.stick(id).mended().fits() {
        let a = s.reassign(id, all);
        lemma_reassign_staffed(s, id, all);
        lemma_reassign_level(s, id, all);
        lemma_set_sticky_staffed(a, id, true);
        crate::retaining::lemma_reassign_retains(s, id, all);
        crate::retaining::lemma_sticky_retains(a, id, true);
        crate::retaining::lemma_retains_trans(s, a, s.stick(id));
        lemma_lasts(s, s.stick(id));
    }
    let b = LayoutModel { pool: s.pool.set_sticky(id, false), ..s };
    if b.mended().fits() {
        lemma_set_sticky_staffed(s, id, false);
        crate::retaining::lemma_sticky_retains(s, id, false);
        lemma_lasts(s, b);
    }
}

/// Whether a workspace is sticky does not matter to its being in order.
pub proof fn lemma_set_sticky_staffed(s: LayoutModel, id: WorkspaceId, sticky: bool)
    requires
        s.staffed(),
    ensures
        (LayoutModel { pool: s.pool.set_sticky(id, sticky), ..s }).staffed(),
{
    if let Some(w) = s.pool.get(id) {
        lemma_put_alike(s.pool, id, WorkspaceModel { sticky, ..w });
        lemma_alike_members(s.pool, s.pool.set_sticky(id, sticky), s.acts);
    }
}

/// Switching activities leaves the outputs alone.
pub proof fn lemma_switch_activity_level(s: LayoutModel, target: ActivityId)
    ensures
        level(s, s.switch_activity(target)),
{
    if target != s.acts.active && s.acts.has(target) {
        let a = LayoutModel { acts: s.acts.set_active(target), ..s.settle_all() };
        lemma_ensure_all_leads(a);
        assert(level(s, a));
        assert(level(a, a.ensure_all()));
        lemma_level_trans(s, a, a.ensure_all());
    }
}

/// Switching activities keeps the layout whole and in order.
pub proof fn law_switching_keeps_whole(s: LayoutModel, target: ActivityId)
    requires
        s.whole(),
        s.switch_activity(target).mended().fits(),
    ensures
        s.switch_activity(target).mended().whole(),
        s.mindful() ==> s.switch_activity(target).mended().mindful(),
        s.orderly() && free_to_switch(s, target) ==> s.switch_activity(target).mended().orderly(),
{
    if free_to_switch(s, target) {
        lemma_switch_order(s, target);
    }
    let t = s.switch_activity(target);
    lemma_mended_leads(t);
    crate::changing::law_switching_keeps_coherence(s, target);
    lemma_switch_activity_level(s, target);
    crate::retaining::lemma_switch_retains(s, target);
    lemma_lasts(s, t);
}

/// Creating an activity keeps the layout whole and in order.
pub proof fn law_creating_keeps_whole(s: LayoutModel, name: Seq<char>)
    requires
        s.whole(),
        s.create_activity(name).mended().fits(),
    ensures
        s.create_activity(name).mended().whole(),
        s.orderly() ==> s.create_activity(name).mended().orderly(),
{
    crate::agreeing::lemma_create_order(s, name);
    broadcast use {lemma_ensure_all_leads, crate::reconcile::lemma_reconcile_leads};

    let t = s.create_activity(name);
    lemma_mended_leads(t);
    crate::changing::law_creating_an_activity_keeps_coherence(s, name);
    assert(level(s, t));
    lemma_lasts(s, t);
}

/// Renaming an activity keeps the layout whole and in order.
pub proof fn law_renaming_keeps_whole(s: LayoutModel, target: ActivityId, name: Seq<char>)
    requires
        s.whole(),
        s.acts.has(target),
        s.rename_activity(target, name).mended().fits(),
    ensures
        s.rename_activity(target, name).mended().whole(),
        s.mindful() ==> s.rename_activity(target, name).mended().mindful(),
        s.orderly() ==> s.rename_activity(target, name).mended().orderly(),
{
    crate::agreeing::lemma_rename_order(s, target, name);
    crate::ordering::lemma_orders(s, s.rename_activity(target, name));
    let t = s.rename_activity(target, name);
    crate::promises::law_renaming_renames_only(s, target, name);
    lemma_steady_acts(s, t, nowhere());
    crate::retaining::lemma_steady_retains(s, t, nowhere());
    lemma_lasts(s, t);
}

/// Destroying workspaces leaves everyone in place, and no others gone.
pub proof fn lemma_destroy_all_plain(s: LayoutModel, ids: Seq<WorkspaceId>)
    requires
        s.staffed(),
        lists_once(s.pool),
    ensures
        ({
            let t = s.destroy_all(ids);
            &&& t.staffed()
            &&& lists_once(t.pool)
            &&& t.acts.ids() == s.acts.ids()
            &&& t.acts.active == s.acts.active
            &&& t.acts.next == s.acts.next
            &&& forall|x: WorkspaceId| #[trigger]
                t.pool.get(x) == if ids.contains(x) && !s.pool.shared(x) {
                    None
                } else {
                    s.pool.get(x)
                }
        }),
    decreases ids.len(),
{
    if ids.len() > 0 {
        let rest = ids.drop_last();
        let id = ids.last();
        lemma_destroy_all_plain(s, rest);
        let a = s.destroy_all(rest);
        let t = s.destroy_all(ids);
        crate::reclaim::lemma_destroy_leads(a, id);
        lemma_same_ids(a.acts, t.acts);
        lemma_get(a.pool, id);
        assert(a.pool.get(id) == if rest.contains(id) && !s.pool.shared(id) {
            None
        } else {
            s.pool.get(id)
        });
        assert forall|x: WorkspaceId| #[trigger] ids.contains(x) == (rest.contains(x) || x == id) by {
            if ids.contains(x) {
                let k = choose|k: int| 0 <= k < ids.len() && ids[k] == x;
                if k < rest.len() {
                    assert(rest[k] == x);
                }
            }
            if rest.contains(x) {
                let k = choose|k: int| 0 <= k < rest.len() && rest[k] == x;
                assert(ids[k] == x);
            }
            if x == id {
                assert(ids[ids.len() - 1] == x);
            }
        }
        if !a.pool.shared(id) {
            lemma_get_remove(a.pool, id);
            assert forall|i: int| 0 <= i < t.pool.items.len() implies member_ok(
                t.acts,
                #[trigger] t.pool.items[i],
            ) && t.pool.items[i].activities.no_duplicates() by {
                let j = if a.pool.pos(id) is Some && i >= a.pool.pos(id).unwrap() {
                    i + 1
                } else {
                    i
                };
                assert(t.pool.items[i] == a.pool.items[j]);
                assert(member_ok(a.acts, a.pool.items[j]));
                assert(a.pool.items[j].activities.no_duplicates());
            }
            assert(t.staffed()) by {
                lemma_ids_ok(a.acts, t.acts);
            }
            assert forall|x: WorkspaceId| #[trigger] t.pool.get(x) == if ids.contains(x)
                && !s.pool.shared(x) {
                None
            } else {
                s.pool.get(x)
            } by {
                if x != id {
                    assert(t.pool.get(x) == a.pool.get(x));
                } else {
                    lemma_get(t.pool, x);
                }
            }
        } else {
            assert forall|x: WorkspaceId| #[trigger] t.pool.get(x) == if ids.contains(x)
                && !s.pool.shared(x) {
                None
            } else {
                s.pool.get(x)
            } by {
                assert(t.pool.get(x) == a.pool.get(x));
            }
        }
    }
}

/// The same activities in the same order are in order if the same one is active.
pub proof fn lemma_ids_ok(a: ActivitiesModel, b: ActivitiesModel)
    requires
        acts_ok(a),
        a.ids() == b.ids(),
        a.active == b.active,
        a.next <= b.next,
    ensures
        acts_ok(b),
{
    lemma_same_ids(a, b);
    assert(a.list.len() == a.ids().len());
    assert(b.list.len() == b.ids().len());
    assert forall|i: int| 0 <= i < b.list.len() implies (#[trigger] b.list[i]).id == a.list[i].id by {
        assert(a.ids()[i] == a.list[i].id);
        assert(b.ids()[i] == b.list[i].id);
    }
    assert forall|i: int, j: int| 0 <= i < j < b.list.len() implies (#[trigger] b.list[i]).id != (
    #[trigger] b.list[j]).id by {
        assert(a.list[i].id != a.list[j].id);
    }
    assert forall|i: int| 0 <= i < b.list.len() implies (#[trigger] b.list[i]).id.0 < b.next by {
        assert(a.list[i].id.0 < a.next);
    }
}

/// Workspace `x` is in `q` as it is in `p` but for the activities `gone`, or not there if it has no
/// other.
pub open spec fn dissolved(p: PoolModel, q: PoolModel, gone: Seq<ActivityId>, x: WorkspaceId) -> bool {
    match (p.get(x), q.get(x)) {
        (Some(w), Some(r)) => {
            &&& r == WorkspaceModel { activities: r.activities, ..w }
            &&& exists|b: ActivityId| #[trigger] w.activities.contains(b) && !gone.contains(b)
            &&& forall|b: ActivityId| #[trigger]
                r.activities.contains(b) <==> w.activities.contains(b) && !gone.contains(b)
        },
        (Some(w), None) => forall|b: ActivityId| #[trigger]
            w.activities.contains(b) ==> gone.contains(b),
        (None, Some(_)) => false,
        (None, None) => true,
    }
}

/// One activity gone leaves everyone else in place.
pub proof fn lemma_disband_staffed(s: LayoutModel, act: ActivityId)
    requires
        s.staffed(),
        lists_once(s.pool),
        s.acts.has(act),
        s.acts.active != act,
    ensures
        ({
            let t = s.disband(act);
            &&& t.staffed()
            &&& lists_once(t.pool)
            &&& t.acts.active == s.acts.active
            &&& !t.acts.has(act)
            &&& forall|a: ActivityId| a != act && s.acts.has(a) ==> #[trigger] t.acts.has(a)
            &&& forall|x: WorkspaceId| #[trigger] dissolved(s.pool, t.pool, seq![act], x)
            &&& level(s, t)
        }),
{
    let own = ids_of(s.pool.items.filter(owned_by(act)));
    let n = s.pool.items.len() as int;
    assert(s.pool.items.take(n) =~= s.pool.items);
    lemma_ids_of_filter(s.pool, owned_by(act), n);
    let d = s.destroy_all(own);
    let t = s.disband(act);
    lemma_destroy_all_plain(s, own);
    crate::reclaim::lemma_destroy_all_leads(s, own);
    lemma_same_ids(s.acts, d.acts);
    let q = t.pool;
    assert forall|x: WorkspaceId| #[trigger] q.pos(x) == d.pool.pos(x) by {
        crate::search::lemma_find_map(
            q.items,
            d.pool.items,
            crate::pool::has_id(x),
            crate::pool::has_id(x),
        );
    }
    assert forall|i: int| 0 <= i < d.pool.items.len() implies !owned_by(act)(
        #[trigger] d.pool.items[i],
    ) by {
        lemma_pos_of(d.pool, i);
        let w = d.pool.items[i];
        assert(d.pool.get(w.id) == Some(w));
        lemma_get(s.pool, w.id);
        let k = s.pool.pos(w.id).unwrap();
        if owned_by(act)(w) {
            assert(s.pool.items[k] == w);
            assert(own.contains(w.id));
            assert(!s.pool.shared(w.id));
        }
    }
    assert forall|i: int| 0 <= i < q.items.len() implies {
        let w = d.pool.items[i];
        let r = #[trigger] q.items[i];
        &&& r.activities.no_duplicates()
        &&& r.activities.len() > 0
        &&& forall|b: ActivityId| #[trigger]
            r.activities.contains(b) <==> w.activities.contains(b) && b != act
    } by {
        let w = d.pool.items[i];
        assert(w.activities.no_duplicates());
        assert(member_ok(d.acts, w));
        crate::belonging::lemma_filter_acts(w.activities, other_than(act));
        lemma_filter_acts_once(w.activities, other_than(act));
        let r = q.items[i];
        assert forall|b: ActivityId| #[trigger] r.activities.contains(b) <==> w.activities.contains(b)
            && b != act by {}
        assert(!owned_by(act)(w));
        if w.activities.len() == 1 {
            assert(w.activities.contains(w.activities[0]));
            assert(w.activities[0] != act) by {
                if w.activities[0] == act {
                    assert(w.activities.contains(act));
                }
            }
            assert(r.activities.contains(w.activities[0]));
        } else {
            let b = if w.activities[0] == act {
                w.activities[1]
            } else {
                w.activities[0]
            };
            assert(w.activities[0] != w.activities[1]);
            assert(w.activities.contains(b));
            assert(r.activities.contains(b));
        }
    }
    lemma_act(d.acts, act);
    let k = d.acts.pos(act).unwrap();
    assert(t.acts.list == d.acts.list.remove(k));
    assert forall|i: int| 0 <= i < t.acts.list.len() implies #[trigger] t.acts.list[i]
        == d.acts.list[if i < k {
        i
    } else {
        i + 1
    }] by {}
    assert forall|a: ActivityId| a != act && s.acts.has(a) implies #[trigger] t.acts.has(a) by {
        lemma_act(d.acts, a);
        lemma_act(t.acts, a);
        let i = d.acts.pos(a).unwrap();
        if t.acts.pos(a) is None {
            assert(t.acts.list[if i < k {
                i
            } else {
                i - 1
            }].id == a);
        }
    }
    assert(!t.acts.has(act)) by {
        lemma_act(t.acts, act);
        if let Some(i) = t.acts.pos(act) {
            let j = if i < k {
                i
            } else {
                i + 1
            };
            assert(t.acts.list[i] == d.acts.list[j]);
            if j < k {
                assert(d.acts.list[j].id != d.acts.list[k].id);
            } else {
                assert(d.acts.list[k].id != d.acts.list[j].id);
            }
        }
    }
    assert(acts_ok(t.acts)) by {
        assert forall|i: int, j: int| 0 <= i < j < t.acts.list.len() implies (
        #[trigger] t.acts.list[i]).id != (#[trigger] t.acts.list[j]).id by {
            let x = if i < k {
                i
            } else {
                i + 1
            };
            let y = if j < k {
                j
            } else {
                j + 1
            };
            assert(d.acts.list[x].id != d.acts.list[y].id);
        }
        assert forall|i: int| 0 <= i < t.acts.list.len() implies (#[trigger] t.acts.list[i]).id.0
            < t.acts.next by {
            let x = if i < k {
                i
            } else {
                i + 1
            };
            assert(d.acts.list[x].id.0 < d.acts.next);
        }
    }
    assert forall|i: int| 0 <= i < q.items.len() implies member_ok(t.acts, #[trigger] q.items[i]) by {
        let w = d.pool.items[i];
        assert(member_ok(d.acts, w));
        assert forall|b: ActivityId| #[trigger] q.items[i].activities.contains(
            b,
        ) implies t.acts.has(b) by {
            assert(w.activities.contains(b) && b != act);
            assert(d.acts.has(b));
        }
    }
    assert(pool_ok(q)) by {
        assert forall|i: int, j: int| 0 <= i < j < q.items.len() implies (#[trigger] q.items[i]).id.0
            < (#[trigger] q.items[j]).id.0 by {
            assert(d.pool.items[i].id.0 < d.pool.items[j].id.0);
        }
        assert forall|i: int| 0 <= i < q.items.len() implies (#[trigger] q.items[i]).id.0 < q.next by {
            assert(d.pool.items[i].id.0 < d.pool.next);
        }
    }
    assert forall|x: WorkspaceId| #[trigger] dissolved(s.pool, q, seq![act], x) by {
        lemma_get(s.pool, x);
        lemma_get(d.pool, x);
        assert(q.pos(x) == d.pool.pos(x));
        let one = seq![act];
        assert forall|b: ActivityId| #[trigger] one.contains(b) <==> b == act by {
            if b == act {
                assert(one[0] == b);
            }
        }
        assert(d.pool.get(x) == if own.contains(x) && !s.pool.shared(x) {
            None
        } else {
            s.pool.get(x)
        });
        if let Some(w) = s.pool.get(x) {
            if d.pool.get(x) is None {
                let k = choose|k: int|
                    0 <= k < n && owned_by(act)(#[trigger] s.pool.items[k]) && s.pool.items[k].id
                        == x;
                lemma_pos_of(s.pool, k);
                assert forall|b: ActivityId| #[trigger] w.activities.contains(
                    b,
                ) implies one.contains(b) by {
                    let i = choose|i: int| 0 <= i < w.activities.len() && w.activities[i] == b;
                    let j = choose|j: int| 0 <= j < w.activities.len() && w.activities[j] == act;
                    assert(i == 0 && j == 0);
                }
            } else {
                let i = d.pool.pos(x).unwrap();
                let r = q.items[i];
                assert(r.activities.len() > 0);
                assert(r.activities.contains(r.activities[0]));
                assert(w.activities.contains(r.activities[0]) && !one.contains(r.activities[0]));
            }
        }
    }
}

/// A filter makes no activity occur twice.
pub proof fn lemma_filter_acts_once(s: Seq<ActivityId>, p: spec_fn(ActivityId) -> bool)
    requires
        s.no_duplicates(),
    ensures
        s.filter(p).no_duplicates(),
    decreases s.len(),
{
    reveal(Seq::filter);
    if s.len() > 0 {
        let rest = s.drop_last();
        assert(rest.no_duplicates());
        lemma_filter_acts_once(rest, p);
        crate::belonging::lemma_filter_acts(rest, p);
        let f = rest.filter(p);
        if p(s.last()) {
            assert(!f.contains(s.last())) by {
                if f.contains(s.last()) {
                    assert(rest.contains(s.last()));
                    let k = choose|k: int| 0 <= k < rest.len() && rest[k] == s.last();
                    assert(s[k] == s[s.len() - 1]);
                }
            }
            let g = f.push(s.last());
            assert forall|i: int, j: int| 0 <= i < g.len() && 0 <= j < g.len() && i != j implies g[i]
                != g[j] by {
                if i == f.len() {
                    assert(f.contains(g[j]));
                } else if j == f.len() {
                    assert(f.contains(g[i]));
                }
            }
        }
    }
}

/// Several activities gone leave everyone else in place.
pub proof fn lemma_disband_all_staffed(s: LayoutModel, gone: Seq<ActivityId>)
    requires
        s.staffed(),
        lists_once(s.pool),
        gone.no_duplicates(),
        !gone.contains(s.acts.active),
        forall|i: int| 0 <= i < gone.len() ==> s.acts.has(#[trigger] gone[i]),
    ensures
        ({
            let t = s.disband_all(gone);
            &&& t.staffed()
            &&& lists_once(t.pool)
            &&& t.acts.active == s.acts.active
            &&& forall|i: int| 0 <= i < gone.len() ==> !t.acts.has(#[trigger] gone[i])
            &&& forall|a: ActivityId|
                !gone.contains(a) && s.acts.has(a) ==> #[trigger] t.acts.has(a)
            &&& forall|x: WorkspaceId| #[trigger] dissolved(s.pool, t.pool, gone, x)
            &&& level(s, t)
        }),
    decreases gone.len(),
{
    if gone.len() == 0 {
        assert forall|x: WorkspaceId| #[trigger] dissolved(s.pool, s.pool, gone, x) by {
            lemma_get(s.pool, x);
            if let Some(w) = s.pool.get(x) {
                assert(member_ok(s.acts, s.pool.items[s.pool.pos(x).unwrap()]));
                assert(w.activities.contains(w.activities[0]));
            }
        }
    } else {
        let rest = gone.drop_last();
        let act = gone.last();
        assert(rest.no_duplicates());
        assert forall|i: int| 0 <= i < rest.len() implies s.acts.has(#[trigger] rest[i]) by {
            assert(s.acts.has(gone[i]));
        }
        assert forall|b: ActivityId| #[trigger] gone.contains(b) == (rest.contains(b) || b == act) by {
            if gone.contains(b) {
                let k = choose|k: int| 0 <= k < gone.len() && gone[k] == b;
                if k < rest.len() {
                    assert(rest[k] == b);
                }
            }
            if rest.contains(b) {
                let k = choose|k: int| 0 <= k < rest.len() && rest[k] == b;
                assert(gone[k] == b);
            }
            if b == act {
                assert(gone[gone.len() - 1] == b);
            }
        }
        assert(!rest.contains(act)) by {
            if rest.contains(act) {
                let k = choose|k: int| 0 <= k < rest.len() && rest[k] == act;
                assert(gone[k] == gone[gone.len() - 1]);
            }
        }
        lemma_disband_all_staffed(s, rest);
        let a = s.disband_all(rest);
        assert(s.acts.has(gone[gone.len() - 1]));
        assert(a.acts.has(act));
        lemma_disband_staffed(a, act);
        let t = s.disband_all(gone);
        lemma_level_trans(s, a, t);
        assert forall|i: int| 0 <= i < gone.len() implies !t.acts.has(#[trigger] gone[i]) by {
            if i < rest.len() {
                assert(rest[i] == gone[i]);
                assert(!a.acts.has(rest[i]));
                if t.acts.has(gone[i]) {
                    lemma_removed_has(a, act, gone[i]);
                }
            }
        }
        let one = seq![act];
        assert forall|b: ActivityId| #[trigger] one.contains(b) <==> b == act by {
            if b == act {
                assert(one[0] == b);
            }
        }
        assert forall|x: WorkspaceId| #[trigger] dissolved(s.pool, t.pool, gone, x) by {
            assert(dissolved(s.pool, a.pool, rest, x));
            assert(dissolved(a.pool, t.pool, one, x));
            if let Some(w) = s.pool.get(x) {
                if let Some(r) = a.pool.get(x) {
                    if let Some(z) = t.pool.get(x) {
                        let b = choose|b: ActivityId| #[trigger]
                            r.activities.contains(b) && !one.contains(b);
                        assert(w.activities.contains(b) && !gone.contains(b));
                    } else {
                        assert forall|b: ActivityId| #[trigger] w.activities.contains(
                            b,
                        ) implies gone.contains(b) by {
                            if !rest.contains(b) {
                                assert(r.activities.contains(b));
                            }
                        }
                    }
                }
            }
        }
    }
}

/// Who is there after one activity left was there before.
pub proof fn lemma_removed_has(s: LayoutModel, act: ActivityId, a: ActivityId)
    requires
        s.staffed(),
        s.disband(act).acts.has(a),
    ensures
        s.acts.has(a),
{
    let own = ids_of(s.pool.items.filter(owned_by(act)));
    let d = s.destroy_all(own);
    crate::reclaim::lemma_destroy_all_leads(s, own);
    lemma_same_ids(s.acts, d.acts);
    let t = s.disband(act);
    lemma_act(t.acts, a);
    lemma_act(d.acts, act);
    lemma_act(d.acts, a);
    let i = t.acts.pos(a).unwrap();
    if let Some(k) = d.acts.pos(act) {
        assert(t.acts.list[i] == d.acts.list[if i < k {
            i
        } else {
            i + 1
        }]);
    }
}

/// Removing an activity keeps the layout whole and in order.
pub proof fn law_removing_an_activity_keeps_whole(s: LayoutModel, target: ActivityId)
    requires
        s.whole(),
        s.acts.has(target),
        s.remove_error(target) is None,
        s.remove_activity(target, s.own_of(target)).mended().fits(),
    ensures
        s.remove_activity(target, s.own_of(target)).mended().whole(),
        s.orderly() && s.free_to_remove(target)
            ==> s.remove_activity(target, s.own_of(target)).mended().orderly(),
{
    if s.free_to_remove(target) {
        crate::agreeing::lemma_remove_order(s, target);
    }
    let own = s.own_of(target);
    let t = s.remove_activity(target, own);
    let s1 = s.yielded(target);
    let s3 = s.departed(target);
    let s4 = s3.disarm_stale();
    let s5 = s4.ensure_all();
    let narrowed = s.narrowed_by(target);
    assert(t == s5.reclaim_all(narrowed));
    lemma_mended_leads(t);
    crate::reclaim::lemma_reclaim_all_leads(s5, narrowed);
    lemma_ensure_all_leads(s4);
    crate::reclaim::lemma_destroy_all_leads(s1, own);
    assert(s1.before(s3));
    assert(s1.fits());
    lemma_act(s.acts, target);
    lemma_yielded(s, target);
    lemma_same_ids(s.acts, s1.acts);
    assert(s3 == s1.disband(target));
    lemma_disband_staffed(s1, target);
    lemma_steady_acts(s3, s4, nowhere());
    lemma_ensure_rows_steady(s4, s4.acts.list.len() as int, nowhere());
    lemma_reclaim_all_steady(s5, narrowed);
    assert(level(s, s1)) by {
        if target == s.acts.active {
            if let Some(next) = s.successor(target) {
                lemma_switch_activity_level(s, next);
            }
        }
    }
    assert(level(s3, s4));
    assert(level(s4, s5));
    assert(level(s5, t));
    lemma_level_trans(s, s1, s3);
    lemma_level_trans(s, s3, s4);
    lemma_level_trans(s, s4, s5);
    lemma_level_trans(s, s5, t);
    lemma_lasts(s, t);
}

/// Adopting workspaces leaves everyone in place, and the work.
pub proof fn lemma_adopt_all_steady(s: LayoutModel, work: Seq<Stray>)
    requires
        s.staffed(),
    ensures
        ({
            let t = s.adopt_all(work);
            &&& t.staffed()
            &&& lists_once(s.pool) ==> lists_once(t.pool)
            &&& t.acts.ids() == s.acts.ids()
            &&& t.acts.active == s.acts.active
            &&& alike(s.pool, t.pool)
            &&& forall|x: WorkspaceId| #[trigger] s.pool.has(x) ==> t.pool.has(x)
                && t.pool.get(x).unwrap() == (WorkspaceModel {
                output_id: t.pool.get(x).unwrap().output_id,
                ..s.pool.get(x).unwrap()
            })
            &&& level(s, t)
        }),
    decreases work.len(),
{
    crate::reload::lemma_adopt_all_leads(s, work);
    if work.len() > 0 {
        let a = s.adopt_all(work.drop_last());
        let w = work.last();
        let t = s.adopt_all(work);
        lemma_adopt_all_steady(s, work.drop_last());
        lemma_get(a.pool, w.id);
        if let Some(x) = a.pool.get(w.id) {
            let y = WorkspaceModel { output_id: Some(w.output), ..x };
            lemma_put_alike(a.pool, w.id, y);
            lemma_get_put(a.pool, w.id, y);
        }
        assert(alike(a.pool, t.pool));
        crate::keeping_outputs::lemma_alike_trans(s.pool, a.pool, t.pool);
        lemma_alike_members(a.pool, t.pool, a.acts);
        lemma_ids_ok(s.acts, t.acts);
        lemma_same_ids(a.acts, t.acts);
        assert(members_ok(t.pool, t.acts)) by {
            assert forall|i: int| 0 <= i < t.pool.items.len() implies member_ok(
                t.acts,
                #[trigger] t.pool.items[i],
            ) by {
                assert(member_ok(a.acts, t.pool.items[i]));
            }
        }
        assert forall|x: WorkspaceId| #[trigger] s.pool.has(x) implies t.pool.has(x) && t.pool.get(
            x,
        ).unwrap() == (WorkspaceModel {
            output_id: t.pool.get(x).unwrap().output_id,
            ..s.pool.get(x).unwrap()
        }) by {
            assert(a.pool.has(x));
        }
    }
}

/// Removing the activities that left the configuration keeps the layout whole and in order. A workspace with
/// windows or a name that belongs to an activity that stays is there afterwards, with the same
/// windows and name, and belongs to those of its activities that stay. One that belongs to none that
/// stays goes, and its windows with it.
pub proof fn law_removing_activities_keeps_whole(s: LayoutModel, gone: Seq<ActivityId>)
    requires
        s.whole(),
        gone.no_duplicates(),
        forall|i: int| 0 <= i < gone.len() ==> s.acts.has(#[trigger] gone[i]),
        s.removal_refusal(gone) is None,
        s.remove_activities(gone).mended().fits(),
    ensures
        ({
            let t = s.remove_activities(gone).mended();
            &&& t.whole()
            &&& s.orderly() && s.free_to_remove_all(gone) ==> t.orderly()
            &&& forall|i: int| 0 <= i < gone.len() ==> !t.acts.has(#[trigger] gone[i])
            &&& forall|x: WorkspaceId| #[trigger]
                s.pool.busy(x) ==> if exists|b: ActivityId| #[trigger]
                    s.pool.member(x, b) && !gone.contains(b) {
                    &&& t.pool.busy(x)
                    &&& t.pool.get(x).unwrap().tiles == s.pool.get(x).unwrap().tiles
                    &&& t.pool.get(x).unwrap().name == s.pool.get(x).unwrap().name
                    &&& forall|b: ActivityId| #[trigger]
                        t.pool.member(x, b) <==> s.pool.member(x, b) && !gone.contains(b)
                } else {
                    !t.pool.busy(x)
                }
        }),
{
    let s1 = s.take_refuge(gone);
    let work = s.orphans(gone);
    let s2 = s1.adopt_all(work);
    let u = s2.disband_all(gone);
    let s3 = u.disarm_stale();
    let s4 = s3.ensure_all();
    let narrowed = s2.losing_any(gone);
    let r = s.remove_activities(gone);
    let t = r.mended();
    let o = nowhere();
    assert(r == s4.reclaim_all(narrowed));
    if s.free_to_remove_all(gone) {
        crate::agreeing::lemma_remove_all_order(s, gone);
    }
    lemma_mended_leads(r);
    crate::reclaim::lemma_reclaim_all_leads(s4, narrowed);
    lemma_ensure_all_leads(s3);
    crate::reload::lemma_disband_all_before(s2, gone);
    crate::reload::lemma_adopt_all_leads(s1, work);
    lemma_refuge(s, gone);
    lemma_same_ids(s.acts, s1.acts);
    lemma_adopt_all_steady(s1, work);
    lemma_same_ids(s1.acts, s2.acts);
    assert forall|i: int| 0 <= i < gone.len() implies s2.acts.has(#[trigger] gone[i]) by {
        assert(s.acts.has(gone[i]));
        assert(s1.acts.has(gone[i]));
    }
    lemma_disband_all_staffed(s2, gone);
    lemma_steady_acts(u, s3, o);
    lemma_ensure_rows_steady(s3, s3.acts.list.len() as int, o);
    lemma_steady_trans(u, s3, s4, o);
    lemma_reclaim_all_steady(s4, narrowed);
    lemma_steady_trans(u, s4, r, o);
    crate::returning::lemma_mended_steady(r, o);
    lemma_steady_trans(u, r, t, o);
    assert(level(s, s1)) by {
        if gone.contains(s.acts.active) {
            if let Some(a) = s.refuge(gone) {
                lemma_switch_activity_level(s, a);
            }
        }
    }
    assert(level(u, s3));
    assert(level(s3, s4));
    assert(level(s4, r));
    lemma_level_trans(s, s1, s2);
    lemma_level_trans(s, s2, u);
    lemma_level_trans(s, u, s3);
    lemma_level_trans(s, s3, s4);
    lemma_level_trans(s, s4, r);
    lemma_lasts(s, r);
    lemma_same_ids(u.acts, t.acts);
    assert forall|x: WorkspaceId| #[trigger] s.pool.busy(x) implies if exists|b: ActivityId| #[trigger]
        s.pool.member(x, b) && !gone.contains(b) {
        &&& t.pool.busy(x)
        &&& t.pool.get(x).unwrap().tiles == s.pool.get(x).unwrap().tiles
        &&& t.pool.get(x).unwrap().name == s.pool.get(x).unwrap().name
        &&& forall|b: ActivityId| #[trigger]
            t.pool.member(x, b) <==> s.pool.member(x, b) && !gone.contains(b)
    } else {
        !t.pool.busy(x)
    } by {
        assert(s.pool.has(x));
        assert(s1.pool.get(x) == s.pool.get(x));
        assert(s1.pool.has(x));
        assert(s2.pool.has(x));
        assert(dissolved(s2.pool, u.pool, gone, x));
        if exists|b: ActivityId| #[trigger] s.pool.member(x, b) && !gone.contains(b) {
            let b = choose|b: ActivityId| #[trigger] s.pool.member(x, b) && !gone.contains(b);
            assert(s2.pool.get(x).unwrap().activities.contains(b));
            assert(u.pool.busy(x));
            assert forall|b: ActivityId| #[trigger] t.pool.member(x, b) <==> s.pool.member(x, b)
                && !gone.contains(b) by {
                assert(u.pool.get(x).unwrap().activities.contains(b) <==> s2.pool.get(
                    x,
                ).unwrap().activities.contains(b) && !gone.contains(b));
            }
        } else {
            assert(u.pool.get(x) is None) by {
                if let Some(z) = u.pool.get(x) {
                    let b = choose|b: ActivityId| #[trigger]
                        s2.pool.get(x).unwrap().activities.contains(b) && !gone.contains(b);
                    assert(s.pool.member(x, b));
                }
            }
            assert(!u.pool.busy(x));
        }
    }
}

/// The activities that leave the configuration exist, each once.
pub proof fn lemma_leavers(s: LayoutModel, names: Seq<Seq<char>>)
    requires
        acts_ok(s.acts),
    ensures
        s.leavers(names).no_duplicates(),
        forall|i: int| 0 <= i < s.leavers(names).len() ==> s.acts.has(#[trigger] s.leavers(names)[i]),
{
    let n = s.acts.list.len() as int;
    assert(s.acts.list.take(n) =~= s.acts.list);
    lemma_some_ids(s.acts, crate::reload::obsolete(names), n);
}

/// The ids of picked activities occur once each and exist.
pub proof fn lemma_some_ids(
    acts: ActivitiesModel,
    p: spec_fn(crate::activity::ActivityModel) -> bool,
    n: int,
)
    requires
        acts_ok(acts),
        0 <= n <= acts.list.len(),
    ensures
        ({
            let ids = crate::config::activity_ids(acts.list.take(n).filter(p));
            &&& ids.no_duplicates()
            &&& forall|i: int|
                0 <= i < ids.len() ==> acts.has(#[trigger] ids[i]) && exists|k: int|
                    0 <= k < n && (#[trigger] acts.list[k]).id == ids[i]
        }),
    decreases n,
{
    reveal(Seq::filter);
    let ids = crate::config::activity_ids(acts.list.take(n).filter(p));
    if n > 0 {
        lemma_some_ids(acts, p, n - 1);
        let rest = acts.list.take(n - 1).filter(p);
        let old = crate::config::activity_ids(rest);
        assert(acts.list.take(n).drop_last() =~= acts.list.take(n - 1));
        lemma_act_pos(acts, n - 1);
        if p(acts.list[n - 1]) {
            assert(ids =~= old.push(acts.list[n - 1].id));
            assert forall|i: int| 0 <= i < ids.len() implies acts.has(#[trigger] ids[i]) && exists|
                k: int,
            |
                0 <= k < n && (#[trigger] acts.list[k]).id == ids[i] by {
                if i < old.len() {
                    assert(ids[i] == old[i]);
                    let k = choose|k: int|
                        0 <= k < n - 1 && (#[trigger] acts.list[k]).id == old[i];
                    assert(acts.list[k].id == ids[i]);
                } else {
                    assert(acts.list[n - 1].id == ids[i]);
                }
            }
            assert forall|i: int, j: int|
                0 <= i < ids.len() && 0 <= j < ids.len() && i != j implies ids[i] != ids[j] by {
                if i < old.len() && j < old.len() {
                    assert(old[i] != old[j]);
                } else {
                    let m = if i < old.len() {
                        i
                    } else {
                        j
                    };
                    let k = choose|k: int|
                        0 <= k < n - 1 && (#[trigger] acts.list[k]).id == old[m];
                    assert(acts.list[k].id != acts.list[n - 1].id);
                    assert(ids[m] == old[m]);
                }
            }
        } else {
            assert(ids =~= old);
            assert forall|i: int| 0 <= i < ids.len() implies acts.has(#[trigger] ids[i]) && exists|
                k: int,
            |
                0 <= k < n && (#[trigger] acts.list[k]).id == ids[i] by {
                let k = choose|k: int| 0 <= k < n - 1 && (#[trigger] acts.list[k]).id == old[i];
                assert(acts.list[k].id == ids[i]);
            }
        }
    }
}

/// Declaring activities keeps the layout whole and in order.
pub proof fn law_declaring_keeps_whole(
    s: LayoutModel,
    names: Seq<Seq<char>>,
    decls: Seq<crate::config::WorkspaceDeclModel>,
)
    requires
        s.whole(),
        s.declare_activities(names, decls).mended().fits(),
    ensures
        s.declare_activities(names, decls).mended().whole(),
        s.orderly() ==> s.declare_activities(names, decls).mended().orderly(),
{
    broadcast use {lemma_ensure_all_leads, crate::reconcile::lemma_reconcile_leads};

    let t = s.declare_activities(names, decls);
    lemma_mended_leads(t);
    if s.monitors.len() == 0 {
        assert forall|i: int| 0 <= i < s.acts.list.len() implies (
        #[trigger] s.acts.list[i]).views.len() == 0 by {
            if s.acts.list[i].views.len() > 0 {
                crate::belonging::lemma_entry_is_view(s, i, 0);
                let o = s.acts.list[i].views[0].output;
                assert(s.view_of(s.acts.list[i].id, o) is Some);
                lemma_find_from(s.monitors, crate::layout::on_output(o), 0);
            }
        }
    }
    crate::reloading::law_declaring_keeps_coherence(s, names, decls);
    crate::agreeing::lemma_declare_order(s, names, decls);
    assert(level(s, t));
    lemma_lasts(s, t);
}

/// Opening a declared workspace keeps the layout whole and in order.
pub proof fn law_opening_a_declared_workspace_keeps_whole(
    s: LayoutModel,
    d: crate::config::WorkspaceDeclModel,
)
    requires
        s.whole(),
        s.ensure_named(d).mended().fits(),
    ensures
        s.ensure_named(d).mended().whole(),
        s.orderly() ==> s.ensure_named(d).mended().orderly(),
{
    let t = s.ensure_named(d);
    lemma_mended_leads(t);
    if s.monitors.len() > 0 {
        let mon = s.opening_monitor(d);
        if let Some(out) = d.open_on_output {
            lemma_find_from(s.monitors, crate::reload::designated_by(out), 0);
        }
        assert(0 <= mon < s.monitors.len());
    }
    crate::reloading::law_opening_a_declared_workspace_keeps_coherence(s, d);
    crate::agreeing::lemma_open_named_order(s, d);
    crate::ordering::lemma_orders(s, t);
    if s.monitors.len() > 0 && s.named_workspace(d.name) is None {
        let members = s.acts.declared_for(d);
        let id = s.pool.next_id();
        let mon = s.opening_monitor(d);
        let output = s.monitors[mon].output;
        let s1 = LayoutModel {
            pool: s.pool.mint_declared(d, members, Some(output.id)),
            ..s
        };
        let s2 = if members.contains(s.acts.active) {
            s1.attach(mon, id, 0, false)
        } else {
            LayoutModel { pool: s1.pool.bind(id, output), ..s1 }
        };
        crate::arrange::lemma_attach_leads(s1, mon, id, 0, false);
        let more = s2.acts.ids().filter(crate::switching::elsewhere(s.acts.active, members));
        let s3 = s2.enlist_all(more, output.id, id);
        crate::membership::lemma_enlist_all_leads(s2, more, output.id, id);
        crate::bookends::lemma_normalize_leads(s3);
        assert(level(s, s2));
        assert(level(s2, s3));
        assert(level(s3, t));
        lemma_level_trans(s, s2, s3);
        lemma_level_trans(s, s3, t);
    }
    lemma_lasts(s, t);
}

/// Bringing the views in agreement with membership leaves everyone in place, and the work.
pub proof fn lemma_reconcile_steady(s: LayoutModel)
    requires
        s.staffed(),
        s.reconcile().fits(),
    ensures
        steady(s, s.reconcile(), nowhere()),
{
    let o = nowhere();
    lemma_steady_acts(s, s, o);
    if s.monitors.len() > 0 {
        let wanted = crate::reconcile::all_missing(s.pool, s.acts.list, s.parked);
        let unwanted = crate::reconcile::all_strays(s.pool, s.acts.list);
        let active = s.acts.active;
        let touched = (exists|i: int|
            0 <= i < wanted.len() && (#[trigger] wanted[i]).act == active) || (exists|i: int|
            0 <= i < unwanted.len() && (#[trigger] unwanted[i]).act == active);
        let s1 = if touched {
            s.snap_all()
        } else {
            s
        };
        let s2 = s1.show_all(wanted);
        let done = s2.taken(unwanted);
        let a = s2.unshow_all(unwanted);
        let s3 = a.collapse_all(done);
        let s4 = if s2.drops_view(unwanted) {
            s3.ensure_all()
        } else {
            s3
        };
        let s5 = if s1.shows_any_busy(wanted) {
            s4.normalize()
        } else {
            s4
        };
        let rest = ids_of(s5.pool.items.filter(crate::reconcile::strayed(done)));
        let t = s.reconcile();
        assert(t == s5.reclaim_all(rest));
        crate::reconcile::lemma_show_all_leads(s1, wanted);
        crate::reconcile::lemma_unshow_all_leads(s2, unwanted);
        crate::reclaim::lemma_reclaim_all_leads(s5, rest);
        crate::bookends::lemma_normalize_leads(s4);
        assert(s5.fits() && s4.fits());
        lemma_steady_acts(s, s1, o);
        lemma_steady_acts(s1, s2, o);
        lemma_steady_trans(s, s1, s2, o);
        lemma_steady_acts(s2, a, o);
        lemma_steady_trans(s, s2, a, o);
        lemma_collapse_all_steady(a, done);
        lemma_steady_trans(s, a, s3, o);
        lemma_steady_acts(s3, s3, o);
        if s2.drops_view(unwanted) {
            lemma_ensure_rows_steady(s3, s3.acts.list.len() as int, o);
        }
        lemma_steady_trans(s, s3, s4, o);
        lemma_steady_acts(s4, s4, o);
        if s1.shows_any_busy(wanted) {
            lemma_normalize_steady(s4, s4.monitors.len() as int, o);
        }
        lemma_steady_trans(s, s4, s5, o);
        lemma_reclaim_all_steady(s5, rest);
        lemma_steady_trans(s, s5, t, o);
    }
}

/// Once the views agree with membership, whatever they showed before, a view of an activity shows a
/// workspace exactly if the workspace belongs to it. No workspace with windows or a name is lost, and
/// none that stays changes its windows, its name or its activities.
pub proof fn law_reconciling_agrees(s: LayoutModel)
    requires
        s.staffed(),
        lists_once(s.pool),
        s.outputs_apart(),
        s.monitors.len() > 0,
        s.reconcile().mended().fits(),
    ensures
        ({
            let t = s.reconcile().mended();
            &&& t.whole()
            &&& s.orderly() ==> t.orderly()
            &&& s.mindful() ==> t.mindful()
            &&& spares(s.pool, t.pool, nowhere())
            &&& forall|x: WorkspaceId| #[trigger]
                t.pool.has(x) && s.pool.has(x) ==> kin(s.pool.get(x).unwrap(), t.pool.get(x).unwrap())
            &&& forall|x: WorkspaceId, a: ActivityId|
                (exists|o: OutputId| t.shows_on(a, o, x)) <==> #[trigger] t.pool.member(x, a)
        }),
{
    let r = s.reconcile();
    let t = r.mended();
    lemma_mended_leads(r);
    lemma_reconcile_steady(s);
    crate::agreeing::lemma_reconcile_order(s);
    crate::ordering::lemma_orders(s, r);
    crate::census::lemma_mended_order(r);
    crate::reconcile::lemma_reconcile_leads(s);
    crate::returning::lemma_mended_steady(r, nowhere());
    lemma_steady_trans(s, r, t, nowhere());
    assert(r.outputs_apart()) by {
        assert forall|i: int| 0 <= i < r.monitors.len() implies (
        #[trigger] r.monitors[i]).output.id.0 != 0 by {
            assert(s.monitors[i].output == r.monitors[i].output);
        }
        assert forall|i: int, j: int| 0 <= i < j < r.monitors.len() implies crate::cores::apart(
            (#[trigger] r.monitors[i]).output,
            (#[trigger] r.monitors[j]).output,
        ) by {
            assert(s.monitors[i].output == r.monitors[i].output);
            assert(s.monitors[j].output == r.monitors[j].output);
            assert(crate::cores::apart(s.monitors[i].output, s.monitors[j].output));
        }
    }
    crate::wholeness::law_mending_makes_whole(r);
    crate::retaining::lemma_steady_retains(s, r, nowhere());
    crate::retaining::lemma_mended_mindful(s, r);
    assert forall|x: WorkspaceId| #[trigger] t.pool.has(x) && s.pool.has(x) implies kin(
        s.pool.get(x).unwrap(),
        t.pool.get(x).unwrap(),
    ) by {
        crate::coherence::lemma_get(s.pool, x);
        assert(s.pool.items[s.pool.pos(x).unwrap()].id.0 < s.pool.next);
    }
    assert forall|x: WorkspaceId, a: ActivityId|
        (exists|o: OutputId| t.shows_on(a, o, x)) <==> #[trigger] t.pool.member(x, a) by {
        if exists|o: OutputId| t.shows_on(a, o, x) {
            let o = choose|o: OutputId| t.shows_on(a, o, x);
            crate::coherence::lemma_view_is_ok(t, a, o);
        }
    }
}

} // verus!
