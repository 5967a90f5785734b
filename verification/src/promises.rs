//! What every activity can rely on: a view of every output, an empty workspace at its end, and
//! that switching to another activity disturbs neither.

use vstd::prelude::*;

use crate::activity::{keyed, named, ActivitiesModel, ActivityModel};
use crate::coherence::{
    activity_ok, acts_ok, lemma_act, lemma_act_pos, lemma_get, lemma_push, lemma_same_ids,
    lemma_view_is_ok, member_ok, view_ok,
};
use crate::ids::{ActivityId, OutputId, WorkspaceId};
use crate::keeping::{lemma_mint_into, lemma_normalize_view};
use crate::layout::{LayoutModel, Options};
use crate::materialize::{framed, strip_others, tagged};
use crate::pool::PoolModel;
use crate::search::lemma_find_from;
use crate::transfer::lemma_view_after_set_other;
use crate::view::ViewModel;
use crate::workspace::WorkspaceModel;

verus! {

/// After an activity was replaced, it is the new one, and the others are as they were.
pub proof fn lemma_get_put_act(s: ActivitiesModel, act: ActivityId, a: ActivityModel)
    requires
        a.id == act,
    ensures
        s.has(act) ==> s.put(act, a).get(act) == Some(a),
        forall|x: ActivityId| x != act ==> #[trigger] s.put(act, a).get(x) == s.get(x),
{
    crate::materialize::lemma_put_ids(s, act, a);
    lemma_same_ids(s, s.put(act, a));
    lemma_act(s, act);
    assert forall|x: ActivityId| x != act implies #[trigger] s.put(act, a).get(x) == s.get(x) by {
        lemma_act(s, x);
        assert(s.put(act, a).pos(x) == s.pos(x));
    }
    if s.has(act) {
        assert(s.put(act, a).pos(act) == s.pos(act));
    }
}

/// An activity with one more view has it, and all it had.
pub proof fn lemma_view_after_add(a: ActivityModel, out: OutputId, v: ViewModel)
    ensures
        a.view_of(out) is None ==> a.add_view(out, v).view_of(out) == Some(v),
        a.add_view(out, v).view_of(out) is Some,
        forall|o: OutputId| #![trigger a.view_of(o)]
            a.view_of(o) is Some ==> a.add_view(out, v).view_of(o) == a.view_of(o),
        forall|o: OutputId| #![trigger a.add_view(out, v).view_of(o)]
            o != out ==> a.add_view(out, v).view_of(o) == a.view_of(o),
{
    let b = a.add_view(out, v);
    assert forall|o: OutputId| #![trigger a.view_of(o)] a.view_of(o) is Some implies b.view_of(o)
        == a.view_of(o) by {
        lemma_find_from(a.views, keyed(o), 0);
        lemma_find_from(b.views, keyed(o), 0);
        let i = a.view_pos(o).unwrap();
        assert(b.views[i] == a.views[i]);
        if let Some(j) = b.view_pos(o) {
            if j < i {
                assert(b.views[j] == a.views[j]);
            }
        }
    }
    assert forall|o: OutputId| #![trigger b.view_of(o)] o != out implies b.view_of(o) == a.view_of(
        o,
    ) by {
        lemma_find_from(a.views, keyed(o), 0);
        lemma_find_from(b.views, keyed(o), 0);
        if let Some(j) = b.view_pos(o) {
            assert(j < a.views.len());
            assert(b.views[j] == a.views[j]);
            assert(a.view_of(o) is Some);
        }
        if a.view_of(o) is Some {
            assert(b.view_of(o) == a.view_of(o));
        }
    }
    lemma_find_from(a.views, keyed(out), 0);
    lemma_find_from(b.views, keyed(out), 0);
    assert(b.views[a.views.len() as int].output == out);
    if a.view_of(out) is None {
        if let Some(j) = b.view_pos(out) {
            if j < a.views.len() {
                assert(b.views[j] == a.views[j]);
            }
        }
    }
}

/// Opening a view gives the activity that view and takes none away; other activities are as they
/// were.
pub proof fn lemma_open_view_views(s: LayoutModel, mon: int, act: ActivityId)
    requires
        s.acts.has(act),
    ensures
        s.open_view(mon, act).view_of(act, s.monitors[mon].output.id) is Some,
        forall|o: OutputId| #[trigger] s.view_of(act, o) is Some ==> s.open_view(mon, act).view_of(
            act,
            o,
        ) is Some,
        forall|x: ActivityId| x != act ==> #[trigger] s.open_view(mon, act).acts.get(x)
            == s.acts.get(x),
{
    let m = s.monitors[mon];
    let out = m.output.id;
    let body = tagged(s.pool, act, out);
    let bottom = s.pool.next_id();
    let p1 = s.pool.mint(out, act);
    let a = s.acts.get(act).unwrap();
    lemma_act(s.acts, act);
    let b = if body.len() > 0 {
        ActivityModel { views: strip_others(a.views, out, body), ..a }
    } else {
        a
    };
    let base = if body.len() > 0 {
        s.acts.put(act, b)
    } else {
        s.acts
    };
    let v = if body.len() > 0 && m.empty_workspace_above_first {
        framed(body, bottom, Some(p1.next_id()))
    } else {
        framed(body, bottom, None)
    };
    lemma_get_put_act(s.acts, act, b);
    assert(base.get(act) == Some(b));
    lemma_get_put_act(base, act, b.add_view(out, v));
    lemma_view_after_add(b, out, v);
    let t = s.open_view(mon, act);
    assert(t.acts == base.add_view(act, out, v));
    assert forall|o: OutputId| #[trigger] s.view_of(act, o) is Some implies t.view_of(
        act,
        o,
    ) is Some by {
        lemma_find_from(a.views, keyed(o), 0);
        lemma_find_from(b.views, keyed(o), 0);
        let i = a.view_pos(o).unwrap();
        assert(b.views[i].output == o);
        assert(b.view_of(o) is Some);
    }
}

impl LayoutModel {
    /// Every activity has a view of every connected output.
    pub open spec fn complete(self) -> bool {
        forall|i: int, m: int|
            0 <= i < self.acts.list.len() && 0 <= m < self.monitors.len() ==> self.view_of(
                (#[trigger] self.acts.list[i]).id,
                (#[trigger] self.monitors[m]).output.id,
            ) is Some
    }

    /// Activity `act`'s view of the output of monitor `m` ends with an empty workspace and, where
    /// views of that output do, begins with one.
    pub open spec fn ends_empty(self, act: ActivityId, m: int) -> bool {
        match self.view_of(act, self.monitors[m].output.id) {
            Some(v) => v.ids.len() > 0 ==> !self.pool.busy(v.ids.last()) && (
            self.monitors[m].empty_workspace_above_first ==> !self.pool.busy(v.ids[0])),
            None => true,
        }
    }

    /// Every view of every connected output has its bookends.
    pub open spec fn all_end_empty(self) -> bool {
        forall|i: int, m: int|
            0 <= i < self.acts.list.len() && 0 <= m < self.monitors.len()
                ==> #[trigger] self.ends_empty(self.acts.list[i].id, m)
    }
}

/// Opening views row by row leaves no gap behind.
pub proof fn lemma_ensure_row_views(s: LayoutModel, act: ActivityId, n: int)
    requires
        s.acts.has(act),
        n <= s.monitors.len(),
    ensures
        forall|m: int| 0 <= m < n ==> s.ensure_row(act, n).view_of(
            act,
            (#[trigger] s.monitors[m]).output.id,
        ) is Some,
        forall|o: OutputId| #[trigger] s.view_of(act, o) is Some ==> s.ensure_row(act, n).view_of(
            act,
            o,
        ) is Some,
        forall|x: ActivityId| x != act ==> #[trigger] s.ensure_row(act, n).acts.get(x)
            == s.acts.get(x),
    decreases n,
{
    if n > 0 {
        lemma_ensure_row_views(s, act, n - 1);
        let t = s.ensure_row(act, n - 1);
        crate::materialize::lemma_ensure_row_leads(s, act, n - 1, n - 1);
        lemma_same_ids(s.acts, t.acts);
        assert(t.monitors[n - 1].output == s.monitors[n - 1].output);
        if t.view_of(act, t.monitors[n - 1].output.id) is None {
            lemma_open_view_views(t, n - 1, act);
            let u = t.open_view(n - 1, act);
            assert forall|m: int| 0 <= m < n implies u.view_of(
                act,
                (#[trigger] s.monitors[m]).output.id,
            ) is Some by {
                if m < n - 1 {
                    assert(t.view_of(act, s.monitors[m].output.id) is Some);
                }
            }
            assert forall|o: OutputId| #[trigger] s.view_of(act, o) is Some implies u.view_of(
                act,
                o,
            ) is Some by {
                assert(t.view_of(act, o) is Some);
            }
            assert forall|x: ActivityId| x != act implies #[trigger] u.acts.get(x) == s.acts.get(
                x,
            ) by {
                assert(t.acts.get(x) == s.acts.get(x));
            }
        }
    }
}

/// Opening the views of the first activities leaves no gap behind.
pub proof fn lemma_ensure_rows_views(s: LayoutModel, n: int)
    requires
        acts_ok(s.acts),
        n <= s.acts.list.len(),
    ensures
        forall|i: int, m: int|
            0 <= i < n && 0 <= m < s.monitors.len() ==> s.ensure_rows(n).view_of(
                (#[trigger] s.acts.list[i]).id,
                (#[trigger] s.monitors[m]).output.id,
            ) is Some,
    decreases n,
{
    if n > 0 {
        lemma_ensure_rows_views(s, n - 1);
        let t = s.ensure_rows(n - 1);
        let act = s.acts.list[n - 1].id;
        let k = s.monitors.len() as int;
        crate::materialize::lemma_ensure_rows_leads(s, n - 1, n - 1);
        lemma_same_ids(s.acts, t.acts);
        lemma_act_pos(s.acts, n - 1);
        assert(t.acts.has(act) == s.acts.has(act));
        lemma_ensure_row_views(t, act, k);
        let u = s.ensure_rows(n);
        assert forall|i: int, m: int|
            0 <= i < n && 0 <= m < s.monitors.len() implies u.view_of(
            (#[trigger] s.acts.list[i]).id,
            (#[trigger] s.monitors[m]).output.id,
        ) is Some by {
            assert(t.monitors[m].output == s.monitors[m].output);
            if i < n - 1 {
                assert(s.acts.list[i].id != act);
                assert(u.acts.get(s.acts.list[i].id) == t.acts.get(s.acts.list[i].id));
                assert(t.view_of(s.acts.list[i].id, s.monitors[m].output.id) is Some);
            }
        }
    }
}

/// Once every missing view is opened, every activity has a view of every connected output.
pub proof fn law_every_activity_has_a_view(s: LayoutModel)
    requires
        acts_ok(s.acts),
    ensures
        s.ensure_all().complete(),
{
    let n = s.acts.list.len() as int;
    lemma_ensure_rows_views(s, n);
    crate::materialize::lemma_ensure_all_leads(s);
    let t = s.ensure_all();
    assert(t.acts.list.len() == t.acts.ids().len());
    assert(s.acts.list.len() == s.acts.ids().len());
    assert forall|i: int, m: int|
        0 <= i < t.acts.list.len() && 0 <= m < t.monitors.len() implies t.view_of(
        (#[trigger] t.acts.list[i]).id,
        (#[trigger] t.monitors[m]).output.id,
    ) is Some by {
        assert(t.acts.ids()[i] == t.acts.list[i].id);
        assert(s.acts.ids()[i] == s.acts.list[i].id);
        assert(t.monitors[m].output == s.monitors[m].output);
    }
}

/// Where nothing is missing, opening views changes nothing.
pub proof fn lemma_ensure_rows_idle(s: LayoutModel, n: int)
    requires
        s.complete(),
        n <= s.acts.list.len(),
    ensures
        s.ensure_rows(n) == s,
    decreases n,
{
    if n > 0 {
        lemma_ensure_rows_idle(s, n - 1);
        lemma_ensure_row_idle(s, n - 1, s.monitors.len() as int);
    }
}

/// Where nothing is missing, opening views changes nothing.
pub proof fn lemma_ensure_row_idle(s: LayoutModel, i: int, n: int)
    requires
        s.complete(),
        0 <= i < s.acts.list.len(),
        n <= s.monitors.len(),
    ensures
        s.ensure_row(s.acts.list[i].id, n) == s,
    decreases n,
{
    if n > 0 {
        lemma_ensure_row_idle(s, i, n - 1);
        assert(s.view_of(s.acts.list[i].id, s.monitors[n - 1].output.id) is Some);
    }
}

/// Where every activity has its views, switching to another one changes no view and no workspace:
/// on every connected output the workspaces of the other activity come into sight, as it left
/// them.
pub proof fn law_switching_disturbs_nothing(s: LayoutModel, target: ActivityId)
    requires
        acts_ok(s.acts),
        s.complete(),
        s.acts.has(target),
    ensures
        ({
            let t = s.switch_activity(target);
            &&& t.pool == s.pool
            &&& t.acts.active == target
            &&& t.focused == s.focused
            &&& acts_ok(t.acts)
            &&& t.acts.ids() == s.acts.ids()
            &&& t.complete()
            &&& forall|x: ActivityId, o: OutputId| #[trigger] t.view_of(x, o) == s.view_of(x, o)
            &&& forall|m: int|
                0 <= m < s.monitors.len() ==> t.active_view(
                    (#[trigger] s.monitors[m]).output.id,
                ) == s.view_of(target, s.monitors[m].output.id) && t.active_view(
                    s.monitors[m].output.id,
                ) is Some
        }),
{
    lemma_act(s.acts, target);
    let i0 = s.acts.pos(target).unwrap();
    assert forall|m: int| 0 <= m < s.monitors.len() implies s.view_of(
        target,
        (#[trigger] s.monitors[m]).output.id,
    ) is Some by {
        assert(s.view_of(s.acts.list[i0].id, s.monitors[m].output.id) is Some);
    }
    if target != s.acts.active {
        let a = s.acts.get(target).unwrap();
        let b = ActivityModel { last_active_seq: s.acts.seq + 1, ..a };
        let base = ActivitiesModel {
            active: target,
            previous: Some(s.acts.active),
            seq: s.acts.seq + 1,
            ..s.acts
        };
        let s1 = LayoutModel { acts: s.acts.set_active(target), ..s.settle_all() };
        assert(base.pos(target) == s.acts.pos(target));
        assert(s1.acts == base.put(target, b));
        lemma_get_put_act(base, target, b);
        assert forall|x: ActivityId, o: OutputId| #[trigger] s1.view_of(x, o) == s.view_of(x, o) by {
            assert(base.get(x) == s.acts.get(x));
            if x != target {
                assert(s1.acts.get(x) == base.get(x));
            }
        }
        assert(s1.complete()) by {
            assert forall|i: int, m: int|
                0 <= i < s1.acts.list.len() && 0 <= m < s1.monitors.len() implies s1.view_of(
                (#[trigger] s1.acts.list[i]).id,
                (#[trigger] s1.monitors[m]).output.id,
            ) is Some by {
                assert(s1.acts.list[i].id == s.acts.list[i].id);
                assert(s1.monitors[m].output == s.monitors[m].output);
                assert(s.view_of(s.acts.list[i].id, s.monitors[m].output.id) is Some);
            }
        }
        lemma_ensure_rows_idle(s1, s1.acts.list.len() as int);
        assert(s1.ensure_all() == s1);
        let t = s.switch_activity(target);
        assert(t.acts == s1.acts);
        crate::materialize::lemma_put_ids(base, target, b);
        assert(base.ids() =~= s.acts.ids());
        assert forall|x: ActivityId, o: OutputId| #[trigger] t.view_of(x, o) == s.view_of(x, o) by {
            assert(s1.view_of(x, o) == s.view_of(x, o));
        }
        assert(acts_ok(t.acts)) by {
            assert forall|i: int, j: int| 0 <= i < j < t.acts.list.len() implies (
            #[trigger] t.acts.list[i]).id != (#[trigger] t.acts.list[j]).id by {
                assert(s.acts.list[i].id != s.acts.list[j].id);
            }
            assert forall|i: int| 0 <= i < t.acts.list.len() implies (
            #[trigger] t.acts.list[i]).id.0 < t.acts.next by {
                assert(s.acts.list[i].id.0 < s.acts.next);
            }
        }
        assert(t.complete()) by {
            assert forall|i: int, m: int|
                0 <= i < t.acts.list.len() && 0 <= m < t.monitors.len() implies t.view_of(
                (#[trigger] t.acts.list[i]).id,
                (#[trigger] t.monitors[m]).output.id,
            ) is Some by {
                assert(t.acts.list[i].id == s1.acts.list[i].id);
                assert(t.monitors[m].output == s1.monitors[m].output);
                assert(s1.view_of(s1.acts.list[i].id, s1.monitors[m].output.id) is Some);
            }
        }
    }
}

/// Switching to another activity and back leaves every view and every workspace as it was.
pub proof fn law_switching_back(s: LayoutModel, target: ActivityId)
    requires
        acts_ok(s.acts),
        s.complete(),
        s.acts.has(target),
    ensures
        ({
            let t = s.switch_activity(target).switch_activity(s.acts.active);
            &&& t.pool == s.pool
            &&& t.acts.active == s.acts.active
            &&& t.focused == s.focused
            &&& forall|x: ActivityId, o: OutputId| #[trigger] t.view_of(x, o) == s.view_of(x, o)
        }),
{
    let u = s.switch_activity(target);
    law_switching_disturbs_nothing(s, target);
    lemma_same_ids(s.acts, u.acts);
    assert(u.acts.has(s.acts.active));
    law_switching_disturbs_nothing(u, s.acts.active);
    let t = u.switch_activity(s.acts.active);
    assert forall|x: ActivityId, o: OutputId| #[trigger] t.view_of(x, o) == s.view_of(x, o) by {
        assert(t.view_of(x, o) == u.view_of(x, o));
        assert(u.view_of(x, o) == s.view_of(x, o));
    }
}

/// The activity to switch to in order to see a workspace is one that the workspace belongs to, and
/// another than the active one whenever there is one.
pub proof fn law_picked_activity_is_another(s: LayoutModel, id: WorkspaceId, hint: Option<ActivityId>)
    requires
        s.coherent(),
        exists|a: ActivityId| a != s.acts.active && #[trigger] s.pool.member(id, a),
    ensures
        s.pick_activity(id, hint) != s.acts.active,
        s.pool.member(id, s.pick_activity(id, hint)),
        s.acts.has(s.pick_activity(id, hint)),
{
    let active = s.acts.active;
    let w = s.pool.get(id).unwrap();
    let acts = w.activities;
    let ids = s.acts.ids();
    let p = crate::switching::elsewhere(active, acts);
    let a = choose|a: ActivityId| a != active && #[trigger] s.pool.member(id, a);
    crate::coherence::lemma_get(s.pool, id);
    assert(member_ok(s.acts, s.pool.items[s.pool.pos(id).unwrap()]));
    assert(acts.contains(a));
    lemma_act(s.acts, a);
    assert(s.acts.has(a));
    lemma_find_from(ids, p, 0);
    let k = s.acts.pos(a).unwrap();
    assert(ids[k] == a);
    assert(p(ids[k]));
    let r = s.pick_activity(id, hint);
    assert(acts.contains(r));
}

/// Renaming an activity changes its name and nothing else.
pub proof fn law_renaming_renames_only(s: LayoutModel, target: ActivityId, name: Seq<char>)
    requires
        acts_ok(s.acts),
        s.acts.has(target),
    ensures
        ({
            let t = s.rename_activity(target, name);
            &&& t == LayoutModel { acts: t.acts, ..s }
            &&& t.acts.ids() == s.acts.ids()
            &&& t.acts.active == s.acts.active
            &&& t.acts.get(target).unwrap().name == name
            &&& forall|x: ActivityId| x != target ==> #[trigger] t.acts.get(x) == s.acts.get(x)
            &&& forall|x: ActivityId, o: OutputId| #[trigger] t.view_of(x, o) == s.view_of(x, o)
        }),
{
    lemma_act(s.acts, target);
    let a = s.acts.get(target).unwrap();
    let b = ActivityModel { name, ..a };
    lemma_get_put_act(s.acts, target, b);
    crate::materialize::lemma_put_ids(s.acts, target, b);
    let t = s.rename_activity(target, name);
    assert forall|x: ActivityId, o: OutputId| #[trigger] t.view_of(x, o) == s.view_of(x, o) by {
        if x != target {
            assert(t.acts.get(x) == s.acts.get(x));
        }
    }
}

/// Renaming as allowed leaves no two activities with the same name up to case, if there were none.
pub proof fn law_renaming_keeps_names_apart(s: LayoutModel, target: ActivityId, name: Seq<char>)
    requires
        acts_ok(s.acts),
        s.acts.has(target),
        s.rename_error(target, name) is None,
        forall|i: int, j: int|
            0 <= i < j < s.acts.list.len() ==> !crate::text::same_name(
                (#[trigger] s.acts.list[i]).name,
                (#[trigger] s.acts.list[j]).name,
            ),
    ensures
        forall|i: int, j: int|
            0 <= i < j < s.acts.list.len() ==> !crate::text::same_name(
                (#[trigger] s.rename_activity(target, name).acts.list[i]).name,
                (#[trigger] s.rename_activity(target, name).acts.list[j]).name,
            ),
{
    lemma_act(s.acts, target);
    let k = s.acts.pos(target).unwrap();
    let t = s.rename_activity(target, name);
    let clash = crate::switching::clashing(name, Some(target));
    lemma_find_from(s.acts.list, clash, 0);
    assert forall|i: int, j: int| 0 <= i < j < s.acts.list.len() implies !crate::text::same_name(
        (#[trigger] t.acts.list[i]).name,
        (#[trigger] t.acts.list[j]).name,
    ) by {
        if i == k {
            assert(t.acts.list[j] == s.acts.list[j]);
            assert(s.acts.list[i].id != s.acts.list[j].id);
            assert(!clash(s.acts.list[j]));
            crate::text::lemma_same_name_equivalence(s.acts.list[j].name, name, name);
        } else if j == k {
            assert(t.acts.list[i] == s.acts.list[i]);
            assert(s.acts.list[i].id != s.acts.list[j].id);
            assert(!clash(s.acts.list[i]));
        } else {
            assert(t.acts.list[i] == s.acts.list[i]);
            assert(t.acts.list[j] == s.acts.list[j]);
            assert(!crate::text::same_name(s.acts.list[i].name, s.acts.list[j].name));
        }
    }
}

/// Where the bookends are there, putting them in changes nothing.
pub proof fn lemma_normalize_acts_idle(s: LayoutModel, mon: int, n: int)
    requires
        s.all_end_empty(),
        0 <= mon < s.monitors.len(),
        n <= s.acts.list.len(),
    ensures
        s.normalize_acts(mon, n) == s,
    decreases n,
{
    if n > 0 {
        lemma_normalize_acts_idle(s, mon, n - 1);
        assert(s.ends_empty(s.acts.list[n - 1].id, mon));
    }
}

/// Where the bookends are there, putting them in changes nothing.
pub proof fn lemma_normalize_mons_idle(s: LayoutModel, n: int)
    requires
        s.all_end_empty(),
        n <= s.monitors.len(),
    ensures
        s.normalize_mons(n) == s,
    decreases n,
{
    if n > 0 {
        lemma_normalize_mons_idle(s, n - 1);
        lemma_normalize_acts_idle(s, n - 1, s.acts.list.len() as int);
    }
}

/// A view with an idle workspace put in at one end still has its other end.
pub proof fn lemma_normalize_view_ends(s: LayoutModel, mon: int, act: ActivityId, act2: ActivityId, m2: int)
    requires
        s.coherent(),
        0 <= mon < s.monitors.len(),
        0 <= m2 < s.monitors.len(),
        s.normalize_view(mon, act).fits(),
        forall|i: int, j: int|
            0 <= i < j < s.monitors.len() ==> (#[trigger] s.monitors[i]).output.id != (
            #[trigger] s.monitors[j]).output.id,
        (act2 == act && m2 == mon) || s.ends_empty(act2, m2),
    ensures
        s.normalize_view(mon, act).ends_empty(act2, m2),
{
    let m = s.monitors[mon];
    let out = m.output.id;
    let leading = m.empty_workspace_above_first;
    let t = s.normalize_view(mon, act);
    lemma_normalize_view(s, mon, act);
    crate::bookends::lemma_normalize_view_leads(s, mon, act);
    if let Some(v) = s.view_of(act, out) {
        lemma_view_is_ok(s, act, out);
        assert(v.ids.contains(v.ids.last()));
        assert(v.ids.contains(v.ids[0]));
        let low = s.pool.busy(v.ids.last());
        let high = leading && s.pool.busy(v.ids[0]);
        let id1 = s.pool.next_id();
        let lower = if low {
            s.mint_into(mon, act, v.ids.len() as int)
        } else {
            s
        };
        let v1 = if low {
            v.insert(v.ids.len() as int, id1)
        } else {
            v
        };
        let n = v.ids.len() as int;
        crate::bookends::lemma_mint_into_leads(s, mon, act, n);
        crate::bookends::lemma_mint_into_leads(lower, mon, act, 0);
        if low {
            crate::transfer::lemma_view_after_mint(s, mon, act, n);
            lemma_mint_into(s, mon, act, n);
            lemma_push(s.pool, WorkspaceModel::fresh(id1, out, act));
            assert(!lower.pool.busy(id1));
        }
        assert(lower.view_of(act, out) == Some(v1));
        assert(!lower.pool.busy(v1.ids.last()));
        let id2 = lower.pool.next_id();
        let v2 = if high {
            v1.insert(0, id2)
        } else {
            v1
        };
        if high {
            crate::transfer::lemma_view_after_mint(lower, mon, act, 0);
            lemma_mint_into(lower, mon, act, 0);
            lemma_push(lower.pool, WorkspaceModel::fresh(id2, out, act));
            assert(!t.pool.busy(id2));
            assert(t.pool.busy(v1.ids.last()) == lower.pool.busy(v1.ids.last())) by {
                if low {
                    assert(v1.ids.last() == id1);
                    assert(lower.pool.has(id1));
                } else {
                    assert(lower.pool.member(v1.ids.last(), act));
                    assert(lower.pool.has(v1.ids.last()));
                }
            }
            assert(v2.ids.last() == v1.ids.last());
        }
        assert(t.view_of(act, out) == Some(v2));
        if act2 == act && m2 == mon {
            assert(!t.pool.busy(v2.ids.last()));
            if leading && !high {
                assert(v1.ids[0] == v.ids[0]);
                assert(s.pool.member(v.ids[0], act));
                assert(s.pool.has(v.ids[0]));
                assert(t.pool.get(v.ids[0]) == s.pool.get(v.ids[0]));
            }
        } else {
            let out2 = s.monitors[m2].output.id;
            assert(act2 != act || out2 != out) by {
                if m2 < mon {
                    assert(s.monitors[m2].output.id != s.monitors[mon].output.id);
                } else if mon < m2 {
                    assert(s.monitors[mon].output.id != s.monitors[m2].output.id);
                }
            }
            lemma_view_after_set_other(s.acts, act, out, v.insert(n, id1), act2, out2);
            assert(lower.view_of(act2, out2) == s.view_of(act2, out2));
            lemma_view_after_set_other(lower.acts, act, out, v1.insert(0, id2), act2, out2);
            assert(t.view_of(act2, out2) == s.view_of(act2, out2));
            if let Some(w) = s.view_of(act2, out2) {
                lemma_view_is_ok(s, act2, out2);
                if w.ids.len() > 0 {
                    assert(w.ids.contains(w.ids.last()));
                    assert(w.ids.contains(w.ids[0]));
                    assert(s.pool.member(w.ids.last(), act2));
                    assert(s.pool.member(w.ids[0], act2));
                    assert(s.pool.has(w.ids.last()) && s.pool.has(w.ids[0]));
                }
            }
        }
    }
}

/// Putting bookends into the views of one monitor gives them all theirs.
pub proof fn lemma_normalize_acts_ends(s: LayoutModel, mon: int, n: int, k: int, m2: int)
    requires
        s.coherent(),
        0 <= mon < s.monitors.len(),
        0 <= m2 < s.monitors.len(),
        0 <= k < s.acts.list.len(),
        n <= s.acts.list.len(),
        s.normalize_acts(mon, n).fits(),
        forall|i: int, j: int|
            0 <= i < j < s.monitors.len() ==> (#[trigger] s.monitors[i]).output.id != (
            #[trigger] s.monitors[j]).output.id,
        (m2 == mon && k < n) || s.ends_empty(s.acts.list[k].id, m2),
    ensures
        s.normalize_acts(mon, n).ends_empty(s.acts.list[k].id, m2),
    decreases n,
{
    if n > 0 {
        let t = s.normalize_acts(mon, n - 1);
        let act = s.acts.list[n - 1].id;
        crate::bookends::lemma_normalize_acts_leads(s, mon, n - 1, n - 1);
        crate::bookends::lemma_normalize_view_leads(t, mon, act);
        crate::keeping::lemma_normalize_acts(s, mon, n - 1);
        assert forall|i: int, j: int| 0 <= i < j < t.monitors.len() implies (
        #[trigger] t.monitors[i]).output.id != (#[trigger] t.monitors[j]).output.id by {
            assert(s.monitors[i].output.id != s.monitors[j].output.id);
        }
        if !(m2 == mon && k == n - 1) {
            lemma_normalize_acts_ends(s, mon, n - 1, k, m2);
        }
        lemma_normalize_view_ends(t, mon, act, s.acts.list[k].id, m2);
    }
}

/// Putting bookends into the views of the first monitors gives them all theirs.
pub proof fn lemma_normalize_mons_ends(s: LayoutModel, n: int, k: int, m2: int)
    requires
        s.coherent(),
        0 <= m2 < s.monitors.len(),
        0 <= k < s.acts.list.len(),
        n <= s.monitors.len(),
        s.normalize_mons(n).fits(),
        forall|i: int, j: int|
            0 <= i < j < s.monitors.len() ==> (#[trigger] s.monitors[i]).output.id != (
            #[trigger] s.monitors[j]).output.id,
        m2 < n || s.ends_empty(s.acts.list[k].id, m2),
    ensures
        s.normalize_mons(n).ends_empty(s.acts.list[k].id, m2),
    decreases n,
{
    if n > 0 {
        let t = s.normalize_mons(n - 1);
        let c = s.acts.list.len() as int;
        crate::bookends::lemma_normalize_mons_leads(s, n - 1, n - 1);
        crate::bookends::lemma_normalize_acts_leads(t, n - 1, 0, c);
        crate::keeping::lemma_normalize_mons(s, n - 1);
        assert(t.acts.list.len() == t.acts.ids().len());
        assert(s.acts.list.len() == s.acts.ids().len());
        assert(t.acts.list[k].id == s.acts.list[k].id) by {
            assert(t.acts.ids()[k] == t.acts.list[k].id);
            assert(s.acts.ids()[k] == s.acts.list[k].id);
        }
        assert forall|i: int, j: int| 0 <= i < j < t.monitors.len() implies (
        #[trigger] t.monitors[i]).output.id != (#[trigger] t.monitors[j]).output.id by {
            assert(s.monitors[i].output.id != s.monitors[j].output.id);
        }
        if m2 != n - 1 {
            lemma_normalize_mons_ends(s, n - 1, k, m2);
        }
        lemma_normalize_acts_ends(t, n - 1, c, k, m2);
    }
}

/// Once missing bookends are put in, every view of every connected output ends with an empty
/// workspace and, where views of that output do, begins with one; putting them in again changes
/// nothing.
pub proof fn law_normalize_settles(s: LayoutModel)
    requires
        s.coherent(),
        s.normalize().fits(),
        forall|i: int, j: int|
            0 <= i < j < s.monitors.len() ==> (#[trigger] s.monitors[i]).output.id != (
            #[trigger] s.monitors[j]).output.id,
    ensures
        s.normalize().all_end_empty(),
        s.normalize().normalize() == s.normalize(),
{
    let t = s.normalize();
    let n = s.monitors.len() as int;
    crate::bookends::lemma_normalize_leads(s);
    assert(t.acts.list.len() == t.acts.ids().len());
    assert(s.acts.list.len() == s.acts.ids().len());
    assert forall|i: int, m: int|
        0 <= i < t.acts.list.len() && 0 <= m
            < t.monitors.len() implies #[trigger] t.ends_empty(t.acts.list[i].id, m) by {
        assert(t.acts.ids()[i] == t.acts.list[i].id);
        assert(s.acts.ids()[i] == s.acts.list[i].id);
        lemma_normalize_mons_ends(s, n, i, m);
    }
    lemma_normalize_mons_idle(t, t.monitors.len() as int);
}

/// A layout that was just made is sound and coherent.
pub proof fn law_beginnings_are_sound(options: Options)
    ensures
        ({
            let s = LayoutModel::outset(
                ActivitiesModel::lone(),
                PoolModel { items: Seq::empty(), next: 1 },
                Seq::empty(),
                options,
            );
            s.sound() && s.coherent() && s.shown_once() && s.complete()
        }),
{
    let s = LayoutModel::outset(
        ActivitiesModel::lone(),
        PoolModel { items: Seq::empty(), next: 1 },
        Seq::empty(),
        options,
    );
    lemma_find_from(s.acts.list, named(ActivityId(1)), 0);
    assert(s.acts.list[0].id == ActivityId(1));
    assert(s.acts.pos(ActivityId(1)) == Some(0int));
    assert(s.acts.ids() =~= seq![ActivityId(1)]);
    assert forall|a: ActivityId, o: OutputId, x: WorkspaceId| !(#[trigger] s.shows_on(a, o, x)) by {
        lemma_act(s.acts, a);
        if let Some(i) = s.acts.pos(a) {
            lemma_find_from(s.acts.list[i].views, keyed(o), 0);
        }
    }
}

/// A layout that passes the checks is coherent, as long as no id was handed out that is not spent.
pub proof fn law_sound_is_coherent(s: LayoutModel)
    requires
        s.sound(),
        s.pool.wf(),
        0 <= s.pool.next,
        0 <= s.acts.next,
        forall|i: int| 0 <= i < s.acts.list.len() ==> (#[trigger] s.acts.list[i]).id.0 < s.acts.next,
    ensures
        s.coherent(),
{
    assert(acts_ok(s.acts)) by {
        assert forall|i: int, j: int| 0 <= i < j < s.acts.list.len() implies (
        #[trigger] s.acts.list[i]).id != (#[trigger] s.acts.list[j]).id by {
            assert(s.acts.ids()[i] != s.acts.ids()[j]);
        }
    }
    assert forall|i: int| 0 <= i < s.acts.list.len() implies activity_ok(
        s.pool,
        #[trigger] s.acts.list[i],
    ) by {
        let a = s.acts.list[i];
        assert(s.activity_sound(a));
        assert forall|j: int| 0 <= j < a.views.len() implies view_ok(
            s.pool,
            a.id,
            (#[trigger] a.views[j]).view,
        ) by {
            assert(s.entry_sound(a.id, a.views[j]));
            let v = a.views[j].view;
            assert forall|x: WorkspaceId| #[trigger] v.ids.contains(x) implies s.pool.member(
                x,
                a.id,
            ) by {
                let k = choose|k: int| 0 <= k < v.ids.len() && v.ids[k] == x;
                assert(s.is_member(a.id, v.ids[k]));
            }
        }
    }
    assert forall|i: int| 0 <= i < s.pool.items.len() implies member_ok(
        s.acts,
        #[trigger] s.pool.items[i],
    ) by {
        let w = s.pool.items[i];
        assert(s.member_sound(w));
        assert forall|x: ActivityId| #[trigger] w.activities.contains(x) implies s.acts.has(x) by {
            let k = choose|k: int| 0 <= k < w.activities.len() && w.activities[k] == x;
            assert(s.acts.has(w.activities[k]));
        }
    }
}

} // verus!
