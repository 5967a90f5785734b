//! A workspace belongs to the activities that it was given to, and is shown by them where it is.

use vstd::prelude::*;

use crate::aiming::lemma_settled_view;
use crate::belonging::{lemma_filter_acts, lemma_same_once};
use crate::coherence::{lemma_act, lemma_get, lemma_get_put, lemma_view_is_ok};
use crate::declaring::lemma_enlist_all_views;
use crate::ids::{ActivityId, OutputId, WorkspaceId};
use crate::layout::LayoutModel;
use crate::persisting::lemma_mended_work;
use crate::switching::other_than;
use crate::workspace::{Output, WorkspaceModel};

verus! {

/// Workspace `id` belongs to the activities of `want` and to no others, every other workspace in use
/// to those that it did, and each has the windows and the name that it had.
pub open spec fn regrouped(
    s: LayoutModel,
    t: LayoutModel,
    id: WorkspaceId,
    want: spec_fn(ActivityId) -> bool,
) -> bool {
    &&& forall|a: ActivityId| #[trigger] t.pool.member(id, a) == want(a)
    &&& forall|x: WorkspaceId, a: ActivityId|
        s.pool.busy(x) && x != id ==> #[trigger] t.pool.member(x, a) == s.pool.member(x, a)
    &&& forall|x: WorkspaceId| #[trigger]
        s.pool.busy(x) ==> {
            &&& t.pool.has(x)
            &&& t.pool.get(x).unwrap().tiles == s.pool.get(x).unwrap().tiles
            &&& t.pool.get(x).unwrap().name == s.pool.get(x).unwrap().name
        }
    &&& t.acts.ids() == s.acts.ids()
    &&& t.acts.active == s.acts.active
    &&& t.focused == s.focused
}

/// A workspace in use that joins an activity belongs to that one too. Where the activities that it
/// belongs to show it on one output, the activity that it joins shows it there, and every activity
/// shows it there alone. Nothing else that is in use changes, and what is active stays active.
pub proof fn law_joined_workspace_is_shown_where_it_is(
    s: LayoutModel,
    id: WorkspaceId,
    act: ActivityId,
    o: OutputId,
)
    requires
        s.whole(),
        s.monitors.len() > 0,
        s.pool.busy(id),
        s.acts.has(act),
        !s.pool.member(id, act),
        forall|a: ActivityId| #[trigger] s.pool.member(id, a) ==> s.shows_on(a, o, id),
        s.join(id, act).mended().fits(),
    ensures
        ({
            let t = s.join(id, act).mended();
            &&& regrouped(s, t, id, |a: ActivityId| a == act || s.pool.member(id, a))
            &&& forall|a: ActivityId, p: OutputId| #[trigger]
                t.shows_on(a, p, id) <==> (t.pool.member(id, a) && p == o)
            &&& forall|a: ActivityId, p: OutputId|
                s.view_of(a, p) is Some ==> match #[trigger] t.view_of(a, p) {
                    Some(u) => u.active == s.view_of(a, p).unwrap().active,
                    None => false,
                }
        }),
{
    let r = s.join(id, act);
    let t = r.mended();
    let old = s.activities_of(id);
    let w = s.pool.get(id).unwrap();
    let b = WorkspaceModel { activities: old.push(act), ..w };
    let s1 = LayoutModel { pool: s.pool.set_activities(id, old.push(act)), ..s };
    crate::mending::lemma_mended_leads(r);
    lemma_get(s.pool, id);
    lemma_get_put(s.pool, id, b);
    crate::belonging::lemma_joined(s, id, act);
    lemma_same_once(s, s1);
    let k = s.pool.pos(id).unwrap();
    assert(crate::coherence::member_ok(s.acts, s.pool.items[k]));
    let a0 = old[0];
    assert(old.contains(a0));
    assert(s.pool.member(id, a0));
    assert(s.shows_on(a0, o, id));
    lemma_held_on(s, id, o);
    assert(s.holding_output(id) == Some(o));
    assert(s.monitor_pos(o) is Some);
    let one = seq![act];
    let e = s1.enlist_all(one, o, id);
    let f = s1.enlist(act, o, id, false);
    let s2 = s1.enlist(act, o, id, true);
    assert(one.drop_last() =~= Seq::<ActivityId>::empty());
    assert(s1.enlist_all(one.drop_last(), o, id) == s1);
    assert(e == f);
    crate::membership::lemma_enlist_leads(s1, act, o, id, true);
    assert(s2.acts == f.acts && s2.pool == f.pool);
    assert forall|p: OutputId| !(#[trigger] s1.shows_on(act, p, id)) by {
        if s.shows_on(act, p, id) {
            lemma_view_is_ok(s, act, p);
            assert(s.pool.member(id, act));
        }
    }
    lemma_act(s.acts, act);
    let i = s.acts.pos(act).unwrap();
    lemma_find_monitor(s, o);
    let m = s.monitor_pos(o).unwrap();
    assert(s.view_of(s.acts.list[i].id, s.monitors[m].output.id) is Some);
    assert(b.activities[old.len() as int] == act);
    assert(s1.pool.member(id, act));
    assert forall|a: ActivityId, p: OutputId| one.contains(a) implies !(#[trigger] s1.shows_on(
        a,
        p,
        id,
    )) by {
        assert(a == act);
    }
    lemma_enlist_all_views(s1, one, o, id);
    crate::belonging::lemma_enlist(s1, act, o, id, true);
    crate::belonging::lemma_enlist_once(s1, act, o, id, true);
    assert(one[0] == act);
    assert(one.contains(act));
    assert forall|a: ActivityId| #[trigger] one.contains(a) == (a == act) by {}
    crate::wholeness::lemma_same_monitor(s1, s2, o);
    assert(r == s2.normalize());
    crate::bookends::lemma_normalize_leads(s2);
    crate::keeping::law_normalize_adds_only(s2);
    crate::abiding::law_joining_keeps_whole(s, id, act);
    lemma_mended_work(r);
    // Views.
    assert forall|a: ActivityId, p: OutputId| s.view_of(a, p) is Some implies match #[trigger] t.view_of(
        a,
        p,
    ) {
        Some(u) => u.active == s.view_of(a, p).unwrap().active && (s2.shows_on(a, p, id)
            ==> u.ids.contains(id)),
        None => false,
    } by {
        assert(s.monitor_pos(p) is Some);
        crate::wholeness::lemma_same_monitor(s, s2, p);
        assert(s2.view_of(a, p) == e.view_of(a, p));
        if a != act || p != o {
            assert(e.view_of(a, p) == s1.view_of(a, p));
        }
        assert(s2.view_of(a, p) is Some);
        lemma_settled_view(s2, a, p);
    }
    // Membership.
    let l = old.push(act);
    assert forall|a: ActivityId| l.contains(a) == (a == act || old.contains(a)) by {
        if l.contains(a) {
            let j = choose|j: int| 0 <= j < l.len() && l[j] == a;
            if j < old.len() {
                assert(old[j] == a);
            }
        }
        if old.contains(a) {
            let j = choose|j: int| 0 <= j < old.len() && old[j] == a;
            assert(l[j] == a);
        }
    }
    assert(s2.pool == s1.pool);
    assert(s1.pool.has(id));
    assert(r.pool.get(id) == Some(b));
    assert(r.pool.busy(id));
    assert forall|a: ActivityId| #[trigger] t.pool.member(id, a) == (a == act || s.pool.member(
        id,
        a,
    )) by {
        assert(t.pool.member(id, a) == r.pool.member(id, a));
        assert(l.contains(a) == (a == act || old.contains(a)));
    }
    assert forall|x: WorkspaceId| #[trigger] s.pool.busy(x) implies t.pool.has(x) && t.pool.get(
        x,
    ).unwrap().tiles == s.pool.get(x).unwrap().tiles && t.pool.get(x).unwrap().name == s.pool.get(
        x,
    ).unwrap().name && (x != id ==> r.pool.get(x) == s.pool.get(x)) && r.pool.busy(x) by {
        if x != id {
            assert(s1.pool.get(x) == s.pool.get(x));
            assert(s2.pool.has(x));
        }
        assert(r.pool.busy(x));
    }
    assert forall|x: WorkspaceId, a: ActivityId| s.pool.busy(x) && x
        != id implies #[trigger] t.pool.member(x, a) == s.pool.member(x, a) by {
        assert(r.pool.get(x) == s.pool.get(x));
        assert(r.pool.busy(x));
    }
    assert forall|a: ActivityId, p: OutputId| #[trigger] t.shows_on(a, p, id) <==> (t.pool.member(
        id,
        a,
    ) && p == o) by {
        if t.pool.member(id, a) {
            if a == act {
                assert(e.view_of(act, o) is Some);
                assert(s2.view_of(a, o) == e.view_of(a, o));
            } else {
                assert(s.shows_on(a, o, id));
                assert(e.view_of(a, o) == s1.view_of(a, o));
                assert(s2.view_of(a, o) == e.view_of(a, o));
            }
            assert(s2.shows_on(a, o, id));
            assert(s.view_of(a, o) is Some);
            assert(t.view_of(a, o) is Some);
            assert(t.shows_on(a, o, id));
        }
        if t.shows_on(a, p, id) {
            lemma_view_is_ok(t, a, p);
            assert(t.pool.member(id, a));
        }
    }
}

/// The output that a workspace is held on, if every activity that has it shows it on the same.
pub proof fn lemma_held_on(s: LayoutModel, id: WorkspaceId, o: OutputId)
    requires
        s.whole(),
        forall|a: ActivityId| #[trigger] s.pool.member(id, a) ==> s.shows_on(a, o, id),
        exists|a: ActivityId| #[trigger] s.shows_on(a, o, id),
    ensures
        s.holding_output(id) == Some(o),
{
    let p = crate::transfer::shows_workspace(id);
    let a = choose|a: ActivityId| #[trigger] s.shows_on(a, o, id);
    lemma_act(s.acts, a);
    crate::belonging::lemma_stray(s, a, id);
    crate::search::lemma_find_from(s.acts.list, p, 0);
    let i = s.acts.pos(a).unwrap();
    assert(s.stray(a, id) is Some);
    assert(p(s.acts.list[i]));
    let j = crate::search::find(s.acts.list, p).unwrap();
    let b = s.acts.list[j].id;
    crate::coherence::lemma_act_pos(s.acts, j);
    crate::belonging::lemma_stray(s, b, id);
    let w = s.stray(b, id).unwrap();
    assert(s.shows_on(b, w.output, id));
    lemma_view_is_ok(s, b, w.output);
    assert(s.pool.member(id, b));
    if w.output != o {
        assert(!s.shows_on(b, o, id));
    }
}

/// A connected output is on some monitor.
pub proof fn lemma_find_monitor(s: LayoutModel, o: OutputId)
    requires
        s.monitor_pos(o) is Some,
    ensures
        0 <= s.monitor_pos(o).unwrap() < s.monitors.len(),
        s.monitors[s.monitor_pos(o).unwrap()].output.id == o,
{
    crate::search::lemma_find_from(s.monitors, crate::layout::on_output(o), 0);
}

/// A workspace in use that leaves an activity, and belongs to another, belongs to the same ones but
/// that, and that one does not show it any more. Nothing else that is in use changes.
pub proof fn law_parted_workspace_has_left(s: LayoutModel, id: WorkspaceId, act: ActivityId)
    requires
        s.whole(),
        s.monitors.len() > 0,
        s.pool.busy(id),
        exists|b: ActivityId| b != act && #[trigger] s.pool.member(id, b),
        s.part(id, act).mended().fits(),
    ensures
        ({
            let t = s.part(id, act).mended();
            &&& forall|a: ActivityId| #[trigger]
                t.pool.member(id, a) == (a != act && s.pool.member(id, a))
            &&& forall|p: OutputId| !(#[trigger] t.shows_on(act, p, id))
            &&& forall|x: WorkspaceId, a: ActivityId|
                s.pool.busy(x) && x != id ==> #[trigger] t.pool.member(x, a) == s.pool.member(x, a)
            &&& forall|x: WorkspaceId| #[trigger]
                s.pool.busy(x) ==> {
                    &&& t.pool.has(x)
                    &&& t.pool.get(x).unwrap().tiles == s.pool.get(x).unwrap().tiles
                    &&& t.pool.get(x).unwrap().name == s.pool.get(x).unwrap().name
                }
        }),
{
    let r = s.part(id, act);
    let t = r.mended();
    let o = s.monitors[0].output;
    let old = s.activities_of(id);
    let new = old.filter(other_than(act));
    let q = s.pool.set_activities(id, new);
    let w = s.pool.get(id).unwrap();
    crate::mending::lemma_mended_leads(r);
    crate::belonging::law_parting_removes_only(s, id, act, o);
    crate::abiding::law_parting_keeps_whole(s, id, act);
    lemma_get(s.pool, id);
    lemma_get_put(s.pool, id, WorkspaceModel { activities: new, ..w });
    lemma_filter_acts(old, other_than(act));
    lemma_mended_work(r);
    lemma_regrouped(s, r, q, id, o);
    assert forall|a: ActivityId| #[trigger] t.pool.member(id, a) == (a != act && s.pool.member(
        id,
        a,
    )) by {
        assert(t.pool.member(id, a) == q.member(id, a));
    }
    assert forall|p: OutputId| !(#[trigger] t.shows_on(act, p, id)) by {
        if t.shows_on(act, p, id) {
            lemma_view_is_ok(t, act, p);
            assert(t.pool.member(id, act));
        }
    }
}

/// Where the work is that of a pool that differs in the activities of one workspace, so it is when
/// everything is in order again.
pub proof fn lemma_regrouped(
    s: LayoutModel,
    r: LayoutModel,
    q: crate::pool::PoolModel,
    id: WorkspaceId,
    o: Output,
)
    requires
        s.pool.busy(id),
        r.staffed(),
        r.mended().fits(),
        crate::cores::same_work(q, r.pool, o),
        q.get(id) == Some(
            WorkspaceModel {
                activities: q.get(id).unwrap().activities,
                ..s.pool.get(id).unwrap()
            },
        ),
        forall|x: WorkspaceId| x != id ==> #[trigger] q.get(x) == s.pool.get(x),
    ensures
        forall|a: ActivityId| #[trigger] r.mended().pool.member(id, a) == q.member(id, a),
        forall|x: WorkspaceId, a: ActivityId|
            s.pool.busy(x) && x != id ==> #[trigger] r.mended().pool.member(x, a) == s.pool.member(
                x,
                a,
            ),
        forall|x: WorkspaceId| #[trigger]
            s.pool.busy(x) ==> {
                &&& r.mended().pool.has(x)
                &&& r.mended().pool.get(x).unwrap().tiles == s.pool.get(x).unwrap().tiles
                &&& r.mended().pool.get(x).unwrap().name == s.pool.get(x).unwrap().name
            },
{
    let t = r.mended();
    lemma_mended_work(r);
    assert(q.busy(id));
    assert(r.pool.busy(id));
    assert(crate::cores::kin(q.get(id).unwrap(), r.pool.get(id).unwrap()));
    assert forall|a: ActivityId| #[trigger] t.pool.member(id, a) == q.member(id, a) by {
        assert(t.pool.member(id, a) == r.pool.member(id, a));
    }
    assert forall|x: WorkspaceId| #[trigger] s.pool.busy(x) implies t.pool.has(x) && t.pool.get(
        x,
    ).unwrap().tiles == s.pool.get(x).unwrap().tiles && t.pool.get(x).unwrap().name == s.pool.get(
        x,
    ).unwrap().name && r.pool.busy(x) && crate::cores::kin(q.get(x).unwrap(), r.pool.get(x).unwrap()) by {
        if x != id {
            assert(q.get(x) == s.pool.get(x));
        }
        assert(q.busy(x));
        assert(r.pool.busy(x));
    }
    assert forall|x: WorkspaceId, a: ActivityId| s.pool.busy(x) && x
        != id implies #[trigger] t.pool.member(x, a) == s.pool.member(x, a) by {
        assert(q.get(x) == s.pool.get(x));
        assert(r.pool.busy(x));
        assert(t.pool.member(x, a) == r.pool.member(x, a));
    }
}

/// A workspace in use that is given activities belongs to those alone, and no other one shows it.
/// Nothing else that is in use changes.
pub proof fn law_reassigned_workspace_belongs_to_those(
    s: LayoutModel,
    id: WorkspaceId,
    new: Seq<ActivityId>,
)
    requires
        s.whole(),
        s.monitors.len() > 0,
        s.pool.busy(id),
        new.len() > 0,
        forall|a: ActivityId| #[trigger] new.contains(a) ==> s.acts.has(a),
        s.reassign(id, new).mended().fits(),
    ensures
        ({
            let t = s.reassign(id, new).mended();
            &&& forall|a: ActivityId| #[trigger] t.pool.member(id, a) == new.contains(a)
            &&& forall|a: ActivityId, p: OutputId| #[trigger]
                t.shows_on(a, p, id) ==> new.contains(a)
            &&& forall|x: WorkspaceId, a: ActivityId|
                s.pool.busy(x) && x != id ==> #[trigger] t.pool.member(x, a) == s.pool.member(x, a)
            &&& forall|x: WorkspaceId| #[trigger]
                s.pool.busy(x) ==> {
                    &&& t.pool.has(x)
                    &&& t.pool.get(x).unwrap().tiles == s.pool.get(x).unwrap().tiles
                    &&& t.pool.get(x).unwrap().name == s.pool.get(x).unwrap().name
                }
        }),
{
    let r = s.reassign(id, new);
    let t = r.mended();
    let o = s.monitors[0].output;
    let old = s.activities_of(id);
    let w = s.pool.get(id).unwrap();
    crate::mending::lemma_mended_leads(r);
    crate::belonging::law_reassigning_sets(s, id, new, o);
    crate::abiding::law_reassigning_keeps_whole(s, id, new);
    lemma_get(s.pool, id);
    lemma_get_put(s.pool, id, WorkspaceModel { activities: new, ..w });
    let gone = old.filter(crate::membership::absent_from(new));
    let come = new.filter(crate::membership::absent_from(old));
    let q = if gone.len() == 0 && come.len() == 0 {
        s.pool
    } else {
        s.pool.set_activities(id, new)
    };
    lemma_regrouped(s, r, q, id, o);
    lemma_filter_acts(old, crate::membership::absent_from(new));
    lemma_filter_acts(new, crate::membership::absent_from(old));
    assert forall|a: ActivityId| #[trigger] t.pool.member(id, a) == new.contains(a) by {
        assert(t.pool.member(id, a) == q.member(id, a));
        if gone.len() == 0 && come.len() == 0 {
            if old.contains(a) && !new.contains(a) {
                assert(gone.contains(a));
            }
            if new.contains(a) && !old.contains(a) {
                assert(come.contains(a));
            }
        }
    }
    assert forall|a: ActivityId, p: OutputId| #[trigger] t.shows_on(a, p, id) implies new.contains(
        a,
    ) by {
        lemma_view_is_ok(t, a, p);
        assert(t.pool.member(id, a));
    }
}

/// The activities of a workspace that joined one more.
pub proof fn lemma_join_members(s: LayoutModel, id: WorkspaceId, act: ActivityId)
    requires
        s.coherent(),
        s.pool.has(id),
        s.acts.has(act),
        s.join(id, act).fits(),
    ensures
        forall|a: ActivityId| #[trigger]
            s.join(id, act).pool.member(id, a) == (a == act || s.pool.member(id, a)),
        s.join(id, act).pool.has(id),
        s.join(id, act).pool.get(id).unwrap().tiles == s.pool.get(id).unwrap().tiles,
        s.join(id, act).pool.get(id).unwrap().name == s.pool.get(id).unwrap().name,
        s.monitors.len() == s.join(id, act).monitors.len(),
{
    let old = s.activities_of(id);
    let r = s.join(id, act);
    crate::membership::lemma_join_leads(s, id, act);
    if !old.contains(act) {
        let w = s.pool.get(id).unwrap();
        let l = old.push(act);
        let b = WorkspaceModel { activities: l, ..w };
        let s1 = LayoutModel { pool: s.pool.set_activities(id, l), ..s };
        lemma_get(s.pool, id);
        lemma_get_put(s.pool, id, b);
        crate::belonging::lemma_joined(s, id, act);
        assert(s1.pool.get(id) == Some(b));
        assert(s1.pool.has(id));
        if let Some(out) = s.holding_output(id) {
            let s2 = s1.enlist(act, out, id, true);
            crate::membership::lemma_enlist_leads(s1, act, out, id, true);
            crate::belonging::lemma_enlist(s1, act, out, id, true);
            assert(s2.pool == s1.pool);
            if s2.pool.busy(id) && s2.monitor_pos(out) is Some {
                crate::keeping::law_normalize_adds_only(s2);
                assert(s2.pool.has(id));
            }
        }
        assert(r.pool.get(id) == Some(b));
        assert forall|a: ActivityId| l.contains(a) == (a == act || old.contains(a)) by {
            if l.contains(a) {
                let j = choose|j: int| 0 <= j < l.len() && l[j] == a;
                if j < old.len() {
                    assert(old[j] == a);
                }
            }
            if old.contains(a) {
                let j = choose|j: int| 0 <= j < old.len() && old[j] == a;
                assert(l[j] == a);
            }
            assert(l[old.len() as int] == act);
        }
    }
}

/// A workspace in use that is moved from one activity to another belongs to the second one instead of
/// the first, and else to the same ones, and the first does not show it any more. Nothing else that
/// is in use changes.
pub proof fn law_workspace_moves_between_activities(
    s: LayoutModel,
    id: WorkspaceId,
    to: ActivityId,
    from: ActivityId,
)
    requires
        s.whole(),
        s.monitors.len() > 0,
        s.pool.busy(id),
        s.acts.has(to),
        to != from,
        s.join(id, to).part(id, from).mended().fits(),
    ensures
        ({
            let t = s.join(id, to).part(id, from).mended();
            &&& forall|a: ActivityId| #[trigger]
                t.pool.member(id, a) == (a == to || (a != from && s.pool.member(id, a)))
            &&& forall|p: OutputId| !(#[trigger] t.shows_on(from, p, id))
            &&& exists|p: OutputId| #[trigger] t.shows_on(to, p, id)
            &&& forall|x: WorkspaceId, a: ActivityId|
                s.pool.busy(x) && x != id ==> #[trigger] t.pool.member(x, a) == s.pool.member(x, a)
            &&& forall|x: WorkspaceId| #[trigger]
                s.pool.busy(x) ==> {
                    &&& t.pool.has(x)
                    &&& t.pool.get(x).unwrap().tiles == s.pool.get(x).unwrap().tiles
                    &&& t.pool.get(x).unwrap().name == s.pool.get(x).unwrap().name
                }
        }),
{
    let j = s.join(id, to);
    let r = j.part(id, from);
    let t = r.mended();
    let o = s.monitors[0].output;
    crate::mending::lemma_mended_leads(r);
    crate::membership::lemma_part_leads(j, id, from);
    crate::membership::lemma_join_leads(s, id, to);
    lemma_join_members(s, id, to);
    crate::belonging::law_joining_adds_only(s, id, to);
    crate::belonging::law_joining_shows_once(s, id, to);
    assert(j.pool.member(id, to));
    assert(j.pool.busy(id));
    crate::belonging::law_parting_removes_only(j, id, from, o);
    crate::abiding::law_moving_between_activities_keeps_whole(s, id, to, from);
    let old = j.activities_of(id);
    let new = old.filter(other_than(from));
    let q = j.pool.set_activities(id, new);
    let w = j.pool.get(id).unwrap();
    lemma_get(j.pool, id);
    lemma_get_put(j.pool, id, WorkspaceModel { activities: new, ..w });
    lemma_filter_acts(old, other_than(from));
    lemma_regrouped(j, r, q, id, o);
    assert forall|a: ActivityId| #[trigger] t.pool.member(id, a) == (a == to || (a != from
        && s.pool.member(id, a))) by {
        assert(t.pool.member(id, a) == q.member(id, a));
        assert(j.pool.member(id, a) == (a == to || s.pool.member(id, a)));
    }
    assert forall|x: WorkspaceId| #[trigger] s.pool.busy(x) implies j.pool.busy(x) && t.pool.has(x)
        && t.pool.get(x).unwrap().tiles == s.pool.get(x).unwrap().tiles && t.pool.get(x).unwrap().name
        == s.pool.get(x).unwrap().name by {
        assert(s.pool.has(x));
        if x != id {
            assert(j.pool.get(x) == s.pool.get(x));
        }
        assert(j.pool.busy(x));
    }
    assert forall|x: WorkspaceId, a: ActivityId| s.pool.busy(x) && x
        != id implies #[trigger] t.pool.member(x, a) == s.pool.member(x, a) by {
        assert(s.pool.has(x));
        assert(j.pool.get(x) == s.pool.get(x));
        assert(j.pool.busy(x));
    }
    assert forall|p: OutputId| !(#[trigger] t.shows_on(from, p, id)) by {
        if t.shows_on(from, p, id) {
            lemma_view_is_ok(t, from, p);
            assert(t.pool.member(id, from));
        }
    }
    assert(t.pool.member(id, to));
}

} // verus!
