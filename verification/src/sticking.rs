//! A workspace that was sticky and is no longer stays where it is.

use vstd::prelude::*;

use crate::belonging::{lemma_distinct, lemma_filter_acts};
use crate::changing::lists_once;
use crate::coherence::{lemma_act, lemma_act_pos, lemma_get, lemma_get_put, lemma_view_is_ok};
use crate::cores::kin;
use crate::ids::{ActivityId, OutputId, WorkspaceId};
use crate::layout::LayoutModel;
use crate::membership::{absent_from, distinct};
use crate::resting::{lemma_at_rest, retouched};
use crate::wholeness::law_mending_is_idle;
use crate::workspace::{Output, WorkspaceModel};

verus! {

impl LayoutModel {
    /// Workspace `id` as it was made sticky, and the layout in order.
    pub open spec fn stuck(self, id: WorkspaceId) -> LayoutModel {
        if self.is_stuck(id) {
            self
        } else {
            self.stick(id).mended()
        }
    }

    /// Workspace `id` no longer sticky, and the layout in order.
    pub open spec fn unstuck(self, id: WorkspaceId) -> LayoutModel {
        (LayoutModel { pool: self.pool.set_sticky(id, false), ..self }).mended()
    }
}

/// Showing a workspace in some activities leaves the views of the others and the pool.
pub proof fn lemma_enlist_all_others(
    s: LayoutModel,
    acts: Seq<ActivityId>,
    out: OutputId,
    id: WorkspaceId,
    a: ActivityId,
)
    requires
        !acts.contains(a),
    ensures
        s.enlist_all(acts, out, id).pool == s.pool,
        s.enlist_all(acts, out, id).acts.get(a) == s.acts.get(a),
    decreases acts.len(),
{
    if acts.len() > 0 {
        let rest = acts.drop_last();
        assert(!rest.contains(a)) by {
            if rest.contains(a) {
                let k = choose|k: int| 0 <= k < rest.len() && rest[k] == a;
                assert(acts[k] == a);
            }
        }
        lemma_enlist_all_others(s, rest, out, id, a);
        let t = s.enlist_all(rest, out, id);
        let act = acts.last();
        assert(acts[acts.len() - 1] == act);
        if let Some(v) = t.view_of(act, out) {
            let w = v.insert(crate::transfer::landing(t.pool, v, id), id);
            lemma_set_view_get(t.acts, act, out, w, a);
        }
    }
}

/// Replacing a view of one activity leaves the others.
pub proof fn lemma_set_view_get(
    s: crate::activity::ActivitiesModel,
    act: ActivityId,
    out: OutputId,
    v: crate::view::ViewModel,
    a: ActivityId,
)
    requires
        a != act,
    ensures
        s.set_view(act, out, v).get(a) == s.get(a),
{
    let t = s.set_view(act, out, v);
    crate::search::lemma_find_from(s.list, crate::activity::named(act), 0);
    crate::search::lemma_find_from(s.list, crate::activity::named(a), 0);
    crate::search::lemma_find_from(t.list, crate::activity::named(a), 0);
    if let Some(i) = s.pos(act) {
        assert(t.list.len() == s.list.len());
        assert forall|j: int| 0 <= j < t.list.len() implies (#[trigger] t.list[j]).id == s.list[j].id
            && (j != i ==> t.list[j] == s.list[j]) by {}
        match (s.pos(a), t.pos(a)) {
            (Some(j), Some(k)) => {
                if j < k {
                    assert(t.list[j].id == a);
                } else if k < j {
                    assert(s.list[k].id == a);
                }
            },
            (Some(j), None) => {
                assert(t.list[j].id == a);
            },
            (None, Some(k)) => {
                assert(s.list[k].id == a);
            },
            (None, None) => {},
        }
    }
}

/// What making a workspace sticky does before anything is mended.
pub open spec fn spread(s: LayoutModel, id: WorkspaceId) -> LayoutModel {
    let all = distinct(s.acts.ids());
    let come = all.filter(absent_from(s.activities_of(id)));
    if come.len() == 0 {
        s
    } else {
        let s1 = if s.reassign_affects(id, all) {
            s.snap_all()
        } else {
            s
        };
        let s2 = LayoutModel { pool: s1.pool.set_activities(id, all), ..s1 };
        match s.holding_output(id) {
            Some(out) => s2.enlist_all(come, out, id),
            None => s2,
        }
    }
}

/// Nothing is taken away from a workspace that is made sticky.
pub proof fn lemma_spread(s: LayoutModel, id: WorkspaceId)
    requires
        s.whole(),
        s.pool.has(id),
    ensures
        s.activities_of(id).filter(absent_from(distinct(s.acts.ids()))).len() == 0,
        s.reassign(id, distinct(s.acts.ids())) == spread(s, id) || (s.pool.busy(id) && s.reassign(
            id,
            distinct(s.acts.ids()),
        ) == spread(s, id).normalize()),
        spread(s, id).pool.has(id),
        spread(s, id).pool.busy(id) == s.pool.busy(id),
        lists_once(spread(s, id).pool),
        spread(s, id).monitors.len() == s.monitors.len(),
        forall|k: int|
            0 <= k < s.monitors.len() ==> (#[trigger] spread(s, id).monitors[k]).output
                == s.monitors[k].output,
        forall|a: ActivityId| #[trigger] s.acts.has(a) ==> spread(s, id).pool.member(id, a),
        forall|a: ActivityId| #[trigger] s.pool.member(id, a) ==> spread(s, id).acts.get(a)
            == s.acts.get(a),
{
    let all = distinct(s.acts.ids());
    let old = s.activities_of(id);
    let gone = old.filter(absent_from(all));
    let come = all.filter(absent_from(old));
    lemma_distinct(s.acts.ids());
    lemma_filter_acts(old, absent_from(all));
    lemma_filter_acts(all, absent_from(old));
    lemma_get(s.pool, id);
    let w = s.pool.get(id).unwrap();
    let p = s.pool.pos(id).unwrap();
    assert(crate::coherence::member_ok(s.acts, s.pool.items[p]));
    assert forall|a: ActivityId| #[trigger] s.acts.has(a) implies all.contains(a) by {
        lemma_act(s.acts, a);
        assert(s.acts.ids()[s.acts.pos(a).unwrap()] == a);
    }
    assert(gone.len() == 0) by {
        if gone.len() > 0 {
            assert(gone.contains(gone[0]));
            assert(old.contains(gone[0]));
            assert(s.acts.has(gone[0]));
            assert(absent_from(all)(gone[0]));
        }
    }
    let t = spread(s, id);
    if come.len() == 0 {
        assert forall|a: ActivityId| #[trigger] s.acts.has(a) implies s.pool.member(id, a) by {
            if !old.contains(a) {
                assert(come.contains(a));
            }
        }
    } else {
        let s1 = if s.reassign_affects(id, all) {
            s.snap_all()
        } else {
            s
        };
        let x = WorkspaceModel { activities: all, ..w };
        let s2 = LayoutModel { pool: s1.pool.set_activities(id, all), ..s1 };
        assert(s2.pool == s.pool.put(id, x));
        lemma_get_put(s.pool, id, x);
        assert(gone =~= Seq::<ActivityId>::empty());
        assert(s2.unshow_from(gone, id) == s2);
        assert(old.contains(old[0]));
        let a0 = old[0];
        assert(!come.contains(a0));
        if let Some(out) = s.holding_output(id) {
            lemma_enlist_all_others(s2, come, out, id, a0);
            crate::membership::lemma_enlist_all_leads(s2, come, out, id);
            assert forall|a: ActivityId| #[trigger] s.pool.member(id, a) implies t.acts.get(a)
                == s.acts.get(a) by {
                assert(old.contains(a));
                assert(!come.contains(a));
                lemma_enlist_all_others(s2, come, out, id, a);
            }
        }
        assert(t.pool == s2.pool);
        crate::wholeness::lemma_distinct_once(s.acts.ids());
        assert(lists_once(t.pool)) by {
            assert forall|i: int| 0 <= i < t.pool.items.len() implies (
            #[trigger] t.pool.items[i]).activities.no_duplicates() by {
                assert(s.pool.items[i].activities.no_duplicates());
            }
        }
        assert forall|k: int| 0 <= k < s.monitors.len() implies (#[trigger] t.monitors[k]).output
            == s.monitors[k].output by {
            assert(s2.monitors[k].output == s.monitors[k].output);
        }
    }
}

/// What is there once a workspace was made sticky, before anything is mended.
pub proof fn lemma_sticking_steps(s: LayoutModel, id: WorkspaceId)
    requires
        s.whole(),
        s.pool.has(id),
        s.stick(id).fits(),
    ensures
        s.stick(id).staffed(),
        lists_once(s.stick(id).pool),
        s.stick(id).pool.has(id),
        s.stick(id).pool.busy(id) == s.pool.busy(id),
        s.stick(id).is_sticky(id),
        s.stick(id).monitors.len() == s.monitors.len(),
        forall|k: int|
            0 <= k < s.monitors.len() ==> (#[trigger] s.stick(id).monitors[k]).output
                == s.monitors[k].output,
        forall|a: ActivityId| #[trigger] s.acts.has(a) ==> s.stick(id).pool.member(id, a),
        forall|a: ActivityId|
            !s.pool.busy(id) && #[trigger] s.pool.member(id, a) ==> s.stick(id).acts.get(a)
                == s.acts.get(a),
{
    let all = distinct(s.acts.ids());
    let a = s.reassign(id, all);
    let b = spread(s, id);
    let t = s.stick(id);
    let o = Output { id: OutputId(0), connector: OutputId(0) };
    lemma_distinct(s.acts.ids());
    assert forall|c: ActivityId| #[trigger] all.contains(c) implies s.acts.has(c) by {
        let k = choose|k: int| 0 <= k < s.acts.ids().len() && s.acts.ids()[k] == c;
        lemma_act_pos(s.acts, k);
    }
    lemma_act(s.acts, s.acts.active);
    assert(s.acts.ids()[s.acts.pos(s.acts.active).unwrap()] == s.acts.active);
    assert(all.contains(s.acts.active));
    lemma_spread(s, id);
    crate::abiding::lemma_reassign_staffed(s, id, all);
    if a != b {
        crate::bookends::lemma_normalize_leads(b);
        lemma_spread_staffed(s, id);
        crate::steadying::lemma_normalize_steady(b, b.monitors.len() as int, o);
        assert(a.pool.busy(id));
        assert forall|k: int| 0 <= k < s.monitors.len() implies (#[trigger] a.monitors[k]).output
            == s.monitors[k].output by {
            assert(b.monitors[k].output == s.monitors[k].output);
        }
        assert forall|c: ActivityId| #[trigger] s.acts.has(c) implies a.pool.member(id, c) by {
            assert(b.pool.member(id, c));
        }
    }
    lemma_get(a.pool, id);
    let w = WorkspaceModel { sticky: true, ..a.pool.get(id).unwrap() };
    lemma_get_put(a.pool, id, w);
    crate::abiding::lemma_set_sticky_staffed(a, id, true);
    assert(lists_once(t.pool)) by {
        assert forall|i: int| 0 <= i < t.pool.items.len() implies (
        #[trigger] t.pool.items[i]).activities.no_duplicates() by {
            assert(a.pool.items[i].activities.no_duplicates());
        }
    }
    assert forall|c: ActivityId| #[trigger] s.acts.has(c) implies t.pool.member(id, c) by {
        assert(a.pool.member(id, c));
    }
}

/// A workspace that belongs to every activity leaves everyone in place.
pub proof fn lemma_spread_staffed(s: LayoutModel, id: WorkspaceId)
    requires
        s.whole(),
        s.pool.has(id),
    ensures
        spread(s, id).staffed(),
{
    let all = distinct(s.acts.ids());
    let come = all.filter(absent_from(s.activities_of(id)));
    lemma_distinct(s.acts.ids());
    assert forall|c: ActivityId| #[trigger] all.contains(c) implies s.acts.has(c) by {
        let k = choose|k: int| 0 <= k < s.acts.ids().len() && s.acts.ids()[k] == c;
        lemma_act_pos(s.acts, k);
    }
    lemma_act(s.acts, s.acts.active);
    assert(s.acts.ids()[s.acts.pos(s.acts.active).unwrap()] == s.acts.active);
    assert(all.contains(s.acts.active));
    if come.len() > 0 {
        let s1 = if s.reassign_affects(id, all) {
            s.snap_all()
        } else {
            s
        };
        crate::abiding::lemma_set_activities_staffed(s1, id, all);
        let s2 = LayoutModel { pool: s1.pool.set_activities(id, all), ..s1 };
        let o = Output { id: OutputId(0), connector: OutputId(0) };
        if let Some(out) = s.holding_output(id) {
            crate::membership::lemma_enlist_all_leads(s2, come, out, id);
            let a0 = s.activities_of(id)[0];
            lemma_filter_acts(all, absent_from(s.activities_of(id)));
            lemma_get(s.pool, id);
            assert(crate::coherence::member_ok(s.acts, s.pool.items[s.pool.pos(id).unwrap()]));
            assert(s.activities_of(id).contains(a0));
            lemma_enlist_all_others(s2, come, out, id, a0);
            let t = spread(s, id);
            crate::steadying::lemma_steady_acts(s2, t, o);
        }
    }
}

/// Making a workspace sticky leaves the activities.
pub proof fn lemma_stick_ids(s: LayoutModel, id: WorkspaceId)
    requires
        s.whole(),
        s.pool.has(id),
    ensures
        s.stick(id).acts.ids() == s.acts.ids(),
{
    let all = distinct(s.acts.ids());
    let come = all.filter(absent_from(s.activities_of(id)));
    lemma_spread(s, id);
    let s1 = if s.reassign_affects(id, all) {
        s.snap_all()
    } else {
        s
    };
    let s2 = LayoutModel { pool: s1.pool.set_activities(id, all), ..s1 };
    if let Some(out) = s.holding_output(id) {
        crate::membership::lemma_enlist_all_leads(s2, come, out, id);
    }
    crate::bookends::lemma_normalize_leads(spread(s, id));
}

/// An empty workspace that was made sticky is shown where it was.
pub proof fn lemma_sticking_shows(s: LayoutModel, id: WorkspaceId) -> (r: (ActivityId, OutputId))
    requires
        s.whole(),
        s.pool.has(id),
        !s.pool.busy(id),
        s.monitors.len() > 0,
        s.stick(id).fits(),
    ensures
        s.stick(id).shows_on(r.0, r.1, id),
        s.stick(id).view_of(r.0, r.1).unwrap().ids.no_duplicates(),
        s.stick(id).monitor_pos(r.1) is Some,
        s.stick(id).pool.member(id, r.0),
        forall|j: int|
            0 <= j < s.stick(id).acts.get(r.0).unwrap().views.len() && s.stick(id).acts.get(
                r.0,
            ).unwrap().views[j].output != r.1 ==> !(#[trigger] s.stick(id).acts.get(
                r.0,
            ).unwrap().views[j]).view.ids.contains(id),
{
    lemma_sticking_steps(s, id);
    lemma_get(s.pool, id);
    let p = s.pool.pos(id).unwrap();
    assert(crate::coherence::member_ok(s.acts, s.pool.items[p]));
    let a = s.pool.items[p].activities[0];
    assert(s.pool.items[p].activities.contains(a));
    assert(s.pool.member(id, a));
    let b = choose|b: OutputId| s.shows_on(a, b, id);
    let t = s.stick(id);
    assert(t.acts.get(a) == s.acts.get(a));
    lemma_view_is_ok(s, a, b);
    let k = s.monitor_pos(b).unwrap();
    crate::search::lemma_find_from(s.monitors, crate::layout::on_output(b), 0);
    crate::search::lemma_find_from(t.monitors, crate::layout::on_output(b), 0);
    assert(t.monitors[k].output == s.monitors[k].output);
    assert(crate::layout::on_output(b)(t.monitors[k]));
    let (i, _) = crate::wholeness::lemma_view_entry(s, a, b);
    let entries = s.acts.list[i].views;
    assert(crate::coherence::activity_ok(s.pool, s.acts.list[i]));
    assert forall|j: int| 0 <= j < entries.len() && entries[j].output != b implies !(
    #[trigger] entries[j]).view.ids.contains(id) by {
        let c = entries[j].output;
        crate::search::lemma_find_from(entries, crate::activity::keyed(c), 0);
        assert(crate::activity::keyed(c)(entries[j]));
        let f = crate::search::find(entries, crate::activity::keyed(c)).unwrap();
        if f < j {
            assert(entries[f].output != entries[j].output);
        }
        assert(s.view_of(a, c) == Some(entries[j].view));
        if entries[j].view.ids.contains(id) {
            assert(s.shows_on(a, c, id));
            assert(s.shows_on(a, b, id));
        }
    }
    (a, b)
}

/// The workspace that was made sticky is still there, sticky, and belongs to every activity.
pub proof fn law_sticking_joins_every_activity(s: LayoutModel, id: WorkspaceId)
    requires
        s.whole(),
        s.pool.has(id),
        s.stuck(id).fits(),
    ensures
        s.stuck(id).whole(),
        s.stuck(id).acts.ids() == s.acts.ids(),
        s.stuck(id).pool.has(id),
        s.stuck(id).is_sticky(id),
        forall|a: ActivityId| #[trigger] s.acts.has(a) ==> s.stuck(id).pool.member(id, a),
{
    let all = distinct(s.acts.ids());
    let old = s.activities_of(id);
    let come = all.filter(absent_from(old));
    lemma_distinct(s.acts.ids());
    lemma_filter_acts(all, absent_from(old));
    assert forall|a: ActivityId| #[trigger] s.acts.has(a) implies all.contains(a) by {
        lemma_act(s.acts, a);
        assert(s.acts.ids()[s.acts.pos(a).unwrap()] == a);
    }
    if s.is_stuck(id) {
        assert forall|a: ActivityId| #[trigger] s.acts.has(a) implies s.pool.member(id, a) by {
            if !old.contains(a) {
                assert(come.contains(a));
            }
        }
    } else {
        let p = s.stick(id);
        crate::mending::lemma_mended_leads(p);
        crate::abiding::law_sticking_keeps_whole(s, id);
        lemma_sticking_steps(s, id);
        let t = p.mended();
        let o = Output { id: OutputId(0), connector: OutputId(0) };
        crate::returning::lemma_mended_steady(p, o);
        lemma_stick_ids(s, id);
        assert(t.pool.has(id)) by {
            if p.pool.busy(id) {
                assert(t.pool.busy(id));
            } else if p.monitors.len() > 0 {
                let (a, b) = lemma_sticking_shows(s, id);
                let q = |x: WorkspaceId| x == id;
                let v = p.view_of(a, b).unwrap();
                crate::keeping_views::lemma_filter(v.ids, q);
                assert(q(id));
                assert(v.ids.filter(q).contains(id));
                crate::returning::lemma_mended_pick(p, a, b, q);
                let z = t.view_of(a, b).unwrap();
                crate::keeping_views::lemma_filter(z.ids, q);
                assert(z.ids.filter(q).contains(id));
                assert(z.ids.contains(id));
                lemma_view_is_ok(t, a, b);
                assert(t.pool.member(id, a));
            } else {
                assert(s.parked.contains(id));
                let k = choose|k: int| 0 <= k < s.parked.len() && s.parked[k] == id;
                assert(s.pool.busy(s.parked[k]));
            }
        }
        assert(kin(p.pool.get(id).unwrap(), t.pool.get(id).unwrap())) by {
            lemma_get(p.pool, id);
            assert(p.pool.items[p.pool.pos(id).unwrap()].id.0 < p.pool.next);
        }
        assert forall|a: ActivityId| #[trigger] s.acts.has(a) implies t.pool.member(id, a) by {
            assert(p.pool.member(id, a));
        }
    }
}

/// A workspace that is made sticky and then no longer is not sticky but still belongs to every
/// activity. Everything else is as it was while the workspace was sticky, and making it not sticky
/// again changes nothing.
pub proof fn law_unsticking_narrows_nothing(s: LayoutModel, id: WorkspaceId)
    requires
        s.whole(),
        s.pool.has(id),
        s.stuck(id).fits(),
    ensures
        ({
            let t = s.stuck(id);
            let u = t.unstuck(id);
            &&& u.whole()
            &&& u == (LayoutModel { pool: t.pool.set_sticky(id, false), ..t })
            &&& u.pool.has(id)
            &&& !u.is_sticky(id)
            &&& u.activities_of(id) == t.activities_of(id)
            &&& forall|a: ActivityId| #[trigger] u.acts.has(a) ==> u.pool.member(id, a)
            &&& forall|x: WorkspaceId| x != id ==> #[trigger] u.pool.get(x) == t.pool.get(x)
            &&& u.unstuck(id) == u
        }),
{
    let t = s.stuck(id);
    law_sticking_joins_every_activity(s, id);
    lemma_unsticking(t, id);
    let u = t.unstuck(id);
    lemma_unsticking(u, id);
    assert(u.unstuck(id) == u) by {
        lemma_get(u.pool, id);
        let w = u.pool.get(id).unwrap();
        assert(u.pool.put(id, WorkspaceModel { sticky: false, ..w }).items =~= u.pool.items);
        assert(u.pool.set_sticky(id, false) == u.pool);
    }
    crate::coherence::lemma_same_ids(s.acts, t.acts);
    assert forall|a: ActivityId| #[trigger] u.acts.has(a) implies u.pool.member(id, a) by {
        assert(s.acts.has(a));
        assert(t.pool.member(id, a));
    }
}

/// Making a workspace not sticky changes nothing else.
pub proof fn lemma_unsticking(t: LayoutModel, id: WorkspaceId)
    requires
        t.whole(),
        t.pool.has(id),
    ensures
        t.unstuck(id) == (LayoutModel { pool: t.pool.set_sticky(id, false), ..t }),
        t.unstuck(id).whole(),
        t.unstuck(id).pool.has(id),
        !t.unstuck(id).is_sticky(id),
        t.unstuck(id).activities_of(id) == t.activities_of(id),
        forall|x: WorkspaceId| x != id ==> #[trigger] t.unstuck(id).pool.get(x) == t.pool.get(x),
{
    let u = LayoutModel { pool: t.pool.set_sticky(id, false), ..t };
    lemma_get(t.pool, id);
    let w = t.pool.get(id).unwrap();
    lemma_get_put(t.pool, id, WorkspaceModel { sticky: false, ..w });
    assert(retouched(t.pool, u.pool));
    lemma_at_rest(t, u);
    law_mending_is_idle(u);
}

} // verus!
