//! Connecting and disconnecting an output leave alone what was never on it.

use vstd::prelude::*;

use crate::activity::{keyed, EntryModel};
use crate::coherence::{lemma_act, lemma_same_ids, lemma_view_is_ok};
use crate::connect::bound_for;
use crate::connecting::{elsewhere, lemma_further_output_spares, lemma_same_elsewhere, rest_of};
use crate::cores::{apart, lemma_filter_filter, lemma_filter_none, view_core};
use crate::disconnecting::lemma_taken_out;
use crate::ids::{ActivityId, OutputId, WorkspaceId};
use crate::keeping_outputs::lemma_firsts;
use crate::keeping_views::lemma_filter;
use crate::layout::{on_output, LayoutModel};
use crate::monitor::Monitor;
use crate::outages::{lemma_connect, lemma_disconnect};
use crate::outputs::worth_keeping;
use crate::resting::lemma_at_rest;
use crate::returning::lemma_mended_pick;
use crate::search::{find, lemma_find_from};
use crate::settling::one_of;
use crate::steadying::{lemma_steady_acts, spares};
use crate::strips::{
    comes_back, not_among, settled_entries, settled_entry,
};
use crate::wholeness::lemma_view_entry;
use crate::workspace::Output;

verus! {

/// The predicate that picks what of `ids` has windows or a name and is not routed to `o`.
pub open spec fn stays_there(s: LayoutModel, ids: Seq<WorkspaceId>, o: Output) -> spec_fn(
    WorkspaceId,
) -> bool {
    |x: WorkspaceId| ids.contains(x) && s.pool.busy(x) && !bound_for(s.pool, x, o)
}

/// A whole layout with someone to stay on its primary monitor is ready for one more output.
pub proof fn lemma_whole_ready(t: LayoutModel, output: Output)
    requires
        t.whole(),
        t.monitors.len() > 0,
        output.id.0 != 0,
        forall|k: int|
            0 <= k < t.monitors.len() ==> apart((#[trigger] t.monitors[k]).output, output),
        exists|i: int|
            0 <= i < t.shown_first().len() && !bound_for(
                t.pool,
                #[trigger] t.shown_first()[i],
                output,
            ),
    ensures
        t.ready_for(output),
{
    assert(t.apart_from(t.primary)) by {
        assert forall|b: OutputId, x: WorkspaceId|
            b != t.monitors[t.primary].output.id && #[trigger] t.shows_on(
                t.acts.active,
                b,
                x,
            ) implies !t.shows_on(t.acts.active, t.monitors[t.primary].output.id, x) by {}
    }
    assert forall|a: ActivityId, k: int| #![trigger t.view_of(a, t.monitors[k].output.id)]
        t.acts.has(a) && 0 <= k < t.monitors.len() implies t.view_of(a, t.monitors[k].output.id)
        is Some by {
        lemma_act(t.acts, a);
        let i = t.acts.pos(a).unwrap();
        assert(t.view_of(t.acts.list[i].id, t.monitors[k].output.id) is Some);
    }
    assert forall|k: int| 0 <= k < t.monitors.len() implies (#[trigger] t.monitors[k]).output.id
        != output.id by {
        assert(apart(t.monitors[k].output, output));
    }
    assert forall|a: ActivityId| #[trigger] t.view_of(a, output.id) is None by {
        lemma_find_from(t.monitors, on_output(output.id), 0);
    }
}

/// What comes back to an output leaves alone what an activity shows elsewhere and is not routed to
/// it.
pub proof fn lemma_reinstate_spares(
    r: LayoutModel,
    output: Output,
    orders: Seq<Seq<WorkspaceId>>,
    a: ActivityId,
    b: OutputId,
    q: spec_fn(WorkspaceId) -> bool,
)
    requires
        r.coherent(),
        r.view_of(a, b) is Some,
        b != output.id,
        forall|x: WorkspaceId| #[trigger] q(x) ==> !bound_for(r.pool, x, output),
        forall|x: WorkspaceId| #[trigger] q(x) ==> r.shows_on(a, b, x),
        forall|o: OutputId, x: WorkspaceId|
            o != b && #[trigger] q(x) ==> !(#[trigger] r.shows_on(a, o, x)),
    ensures
        ({
            let t = r.reinstate(output, orders, false);
            let entries = t.acts.get(a).unwrap().views;
            &&& match t.view_of(a, b) {
                Some(w) => w.ids.filter(q) == r.view_of(a, b).unwrap().ids.filter(q) && forall|
                    x: WorkspaceId,
                | #[trigger] q(x) ==> w.ids.contains(x),
                None => false,
            }
            &&& forall|j: int, x: WorkspaceId|
                0 <= j < entries.len() && entries[j].output != b && #[trigger] q(x) ==> !(
                #[trigger] entries[j].view.ids.contains(x))
        }),
{
    let t = r.reinstate(output, orders, false);
    let out = output.id;
    let (i, k) = lemma_view_entry(r, a, b);
    let order = orders[i];
    let back = r.returning(output, a, order, false);
    let old = r.acts.list[i];
    let v = old.views[k].view;
    assert(t.acts.ids() =~= r.acts.ids());
    lemma_same_ids(r.acts, t.acts);
    let new = t.acts.list[i];
    assert(new == r.reinstated(old, output, order, false));
    assert(t.acts.pos(a) == Some(i));
    assert(t.acts.get(a) == Some(new));
    let p = comes_back(r.pool, output, a, false);
    lemma_firsts(order.filter(p));
    lemma_filter(order, p);
    assert forall|x: WorkspaceId| #[trigger] q(x) implies !back.contains(x) by {
        if back.contains(x) {
            assert(order.filter(p).contains(x));
            assert(p(x));
        }
    }
    assert(crate::coherence::activity_ok(r.pool, old));
    lemma_find_from(old.views, keyed(b), 0);
    lemma_find_from(new.views, keyed(b), 0);
    assert forall|j: int, x: WorkspaceId|
        0 <= j < old.views.len() && old.views[j].output != b && #[trigger] q(x) implies !(
    #[trigger] old.views[j].view.ids.contains(x)) by {
        let o = old.views[j].output;
        lemma_find_from(old.views, keyed(o), 0);
        assert(keyed(o)(old.views[j]));
        let f = find(old.views, keyed(o)).unwrap();
        if f < j {
            assert(old.views[f].output != old.views[j].output);
        }
        assert(r.view_of(a, o) == Some(old.views[j].view));
        assert(!r.shows_on(a, o, x));
    }
    if back.len() > 0 {
        let active = r.was_active(output.connector, a);
        let views = settled_entries(old.views, out, back, active);
        assert forall|j: int| 0 <= j < old.views.len() implies #[trigger] views[j] == settled_entry(
            old.views[j],
            out,
            back,
            active,
        ) && views[j].output == old.views[j].output && new.views[j] == views[j] by {}
        assert(keyed(b)(new.views[k]));
        let f = find(new.views, keyed(b)).unwrap();
        if f < k {
            assert(new.views[f] == views[f]);
            assert(old.views[f].output != old.views[k].output);
        }
        assert(f == k);
        let w = new.views[k].view;
        assert(new.views[k] == views[k]);
        assert(w.ids == v.ids.filter(not_among(back)));
        lemma_filter_filter(v.ids, not_among(back), q);
        lemma_filter(v.ids, not_among(back));
        assert forall|x: WorkspaceId| #[trigger] q(x) implies w.ids.contains(x) by {
            assert(r.shows_on(a, b, x));
            assert(not_among(back)(x));
        }
        assert forall|j: int, x: WorkspaceId|
            0 <= j < new.views.len() && new.views[j].output != b && #[trigger] q(x) implies !(
        #[trigger] new.views[j].view.ids.contains(x)) by {
            if j < old.views.len() {
                assert(new.views[j] == views[j]);
                let e: EntryModel = old.views[j];
                assert(!e.view.ids.contains(x));
                lemma_filter(e.view.ids, not_among(back));
                if e.output == out {
                    crate::restoring::lemma_welcomed(e.view, back, active);
                    assert(!back.contains(x));
                }
            } else {
                assert(new.views[j].view.ids == back);
            }
        }
    }
}

/// Connecting one more output does not change the layout for workspaces that are not routed to it:
/// every activity shows those with windows or a name on the same outputs, in the same order. Some
/// workspace stays on the primary monitor.
pub proof fn law_connecting_spares_the_rest(
    t: LayoutModel,
    output: Output,
    leading: Option<bool>,
    a: ActivityId,
    b: OutputId,
)
    requires
        t.whole(),
        t.monitors.len() > 0,
        output.id.0 != 0,
        forall|k: int|
            0 <= k < t.monitors.len() ==> apart((#[trigger] t.monitors[k]).output, output),
        exists|i: int|
            0 <= i < t.shown_first().len() && !bound_for(
                t.pool,
                #[trigger] t.shown_first()[i],
                output,
            ),
        t.view_of(a, b) is Some,
        t.connect(output, leading).fits(),
    ensures
        ({
            let v = t.view_of(a, b).unwrap();
            let q = stays_there(t, v.ids, output);
            match t.connect(output, leading).view_of(a, b) {
                Some(w) => w.ids.filter(q) == v.ids.filter(q),
                None => false,
            }
        }),
{
    let m = Monitor {
        output,
        empty_workspace_above_first: match leading {
            Some(b) => b,
            None => t.options.empty_workspace_above_first,
        },
        workspace_switch: None,
        activity_switch: None,
        overview_open: t.overview_open,
        dnd_scroll: false,
    };
    let r = t.add_output(output, leading);
    let s1 = r.reinstate(output, t.standings(), false);
    let c = s1.forget_strips(output.connector);
    let u = t.connect(output, leading);
    let v = t.view_of(a, b).unwrap();
    let q = stays_there(t, v.ids, output);
    let e = elsewhere(t.pool, output);
    lemma_connect(t, output, leading);
    crate::mending::lemma_mended_leads(c);
    assert(s1.acts.ids() =~= r.acts.ids());
    assert(r.before(c));
    lemma_whole_ready(t, output);
    assert(r == t.add_further_output(m));
    lemma_further_output_spares(t, m);
    lemma_same_elsewhere(t.pool, r.pool, output);
    assert(b != output.id) by {
        assert(t.view_of(a, output.id) is None);
    }
    lemma_view_is_ok(t, a, b);
    lemma_filter(v.ids, q);
    lemma_filter(v.ids, e);
    let k = t.monitor_pos(b).unwrap();
    lemma_find_from(t.monitors, on_output(b), 0);
    assert(t.acts.has(a));
    lemma_same_ids(t.acts, u.acts);
    lemma_act(u.acts, a);
    assert(t.monitors[k].output == u.monitors[k].output);
    assert(u.view_of(u.acts.list[u.acts.pos(a).unwrap()].id, u.monitors[k].output.id) is Some);
    let w = u.view_of(a, b).unwrap();
    if v.ids.filter(q).len() == 0 {
        assert forall|j: int| 0 <= j < w.ids.len() implies !(#[trigger] q(w.ids[j])) by {
            if q(w.ids[j]) {
                assert(v.ids.filter(q).contains(w.ids[j]));
            }
        }
        lemma_filter_none(w.ids, q);
        assert(v.ids.filter(q) =~= Seq::empty());
    } else {
        assert(rest_of(r.pool, r.view_of(a, b), output) == rest_of(t.pool, t.view_of(a, b), output));
        let first = v.ids.filter(q)[0];
        assert(v.ids.filter(q).contains(first));
        assert(e(first));
        assert(v.ids.filter(e).contains(first));
        assert(r.view_of(a, b) is Some);
        let wr = r.view_of(a, b).unwrap();
        lemma_filter(wr.ids, e);
        lemma_filter_filter(v.ids, e, q);
        lemma_filter_filter(wr.ids, e, q);
        assert(wr.ids.filter(q) == v.ids.filter(q));
        assert forall|x: WorkspaceId| #[trigger] q(x) implies r.shows_on(a, b, x) && !bound_for(
            r.pool,
            x,
            output,
        ) && r.pool.member(x, a) by {
            assert(e(x));
            assert(v.ids.filter(e).contains(x));
            assert(wr.ids.filter(e).contains(x));
            assert(elsewhere(r.pool, output)(x));
            lemma_view_is_ok(r, a, b);
        }
        assert forall|o: OutputId, x: WorkspaceId| o != b && #[trigger] q(x) implies !(
        #[trigger] r.shows_on(a, o, x)) by {
            if r.shows_on(a, o, x) {
                let z = r.view_of(a, o).unwrap();
                lemma_filter(z.ids, e);
                assert(e(x));
                assert(z.ids.filter(e).contains(x));
                assert(rest_of(r.pool, r.view_of(a, o), output) == rest_of(
                    t.pool,
                    t.view_of(a, o),
                    output,
                ));
                assert(t.view_of(a, o) is Some);
                lemma_filter(t.view_of(a, o).unwrap().ids, e);
                assert(t.shows_on(a, o, x));
                assert(t.shows_on(a, b, x));
            }
        }
        lemma_reinstate_spares(r, output, t.standings(), a, b, q);
        assert(c.acts == s1.acts && c.pool == r.pool);
        lemma_steady_acts(r, c, output);
        lemma_find_from(c.monitors, on_output(b), 0);
        assert(t.monitors[k].output == c.monitors[k].output);
        assert(on_output(b)(c.monitors[k]));
        lemma_view_is_ok(t, a, b);
        lemma_mended_pick(c, a, b, q);
    }
}

impl LayoutModel {
    /// What activity `a` shows on output `b` that has windows or a name, once monitor `idx` is gone:
    /// what it showed there and, on the output that takes in what was on that monitor, below it what
    /// it showed on that monitor.
    pub open spec fn left_on(self, idx: int, a: ActivityId, b: OutputId) -> Seq<WorkspaceId> {
        if b == self.refuge_from(idx).id {
            view_core(self.pool, self.view_of(a, b)) + view_core(
                self.pool,
                self.view_of(a, self.monitors[idx].output.id),
            )
        } else {
            view_core(self.pool, self.view_of(a, b))
        }
    }
}

/// What is in the core of a view is in the view, and has windows or a name.
pub proof fn lemma_core_holds(s: LayoutModel, a: ActivityId, b: OutputId, x: WorkspaceId)
    ensures
        view_core(s.pool, s.view_of(a, b)).contains(x) <==> s.shows_on(a, b, x) && s.pool.busy(x),
{
    if let Some(v) = s.view_of(a, b) {
        lemma_filter(v.ids, worth_keeping(s.pool));
        assert(worth_keeping(s.pool)(x) == s.pool.busy(x));
    }
}

/// What is left on an output was shown there or on the monitor that is gone.
pub proof fn lemma_left_on(s: LayoutModel, idx: int, a: ActivityId, b: OutputId, x: WorkspaceId)
    ensures
        s.left_on(idx, a, b).contains(x) <==> s.pool.busy(x) && (s.shows_on(a, b, x) || (b
            == s.refuge_from(idx).id && s.shows_on(a, s.monitors[idx].output.id, x))),
{
    let o = s.monitors[idx].output.id;
    lemma_core_holds(s, a, b, x);
    lemma_core_holds(s, a, o, x);
    let l = view_core(s.pool, s.view_of(a, b));
    let r = view_core(s.pool, s.view_of(a, o));
    if b == s.refuge_from(idx).id {
        if (l + r).contains(x) {
            let n = choose|n: int| 0 <= n < (l + r).len() && (l + r)[n] == x;
            if n < l.len() {
                assert(l[n] == x);
            } else {
                assert(r[n - l.len()] == x);
            }
        }
        if l.contains(x) {
            let n = choose|n: int| 0 <= n < l.len() && l[n] == x;
            assert((l + r)[n] == x);
        }
        if r.contains(x) {
            let n = choose|n: int| 0 <= n < r.len() && r[n] == x;
            assert((l + r)[l.len() + n] == x);
        }
    }
}

/// Disconnecting one of several outputs moves what was on it to another one and changes nothing else:
/// what has windows or a name goes, in order, below what that one shows, activity by activity, and
/// every other view shows what it did, in order.
pub proof fn law_disconnecting_spares_the_rest(s: LayoutModel, idx: int, a: ActivityId, b: OutputId)
    requires
        s.whole(),
        s.monitors.len() > 1,
        0 <= idx < s.monitors.len(),
        s.acts.has(a),
        s.view_of(a, b) is Some,
        b != s.monitors[idx].output.id,
        s.disconnect(idx).fits(),
    ensures
        match s.disconnect(idx).view_of(a, b) {
            Some(w) => w.ids.filter(one_of(s.left_on(idx, a, b))) == s.left_on(idx, a, b),
            None => false,
        },
{
    let o = s.monitors[idx].output;
    let n = s.note_strips(idx);
    let r = n.remove_output(idx);
    let u = s.disconnect(idx);
    let ids = s.left_on(idx, a, b);
    let q = one_of(ids);
    lemma_at_rest(s, n);
    lemma_disconnect(s, idx);
    crate::mending::lemma_mended_leads(r);
    assert forall|k: int| 0 <= k < n.monitors.len() && k != idx implies apart(
        (#[trigger] n.monitors[k]).output,
        n.monitors[idx].output,
    ) by {
        if k < idx {
            assert(apart(s.monitors[k].output, s.monitors[idx].output));
        } else {
            assert(apart(s.monitors[idx].output, s.monitors[k].output));
        }
    }
    assert(n.stands_alone(idx));
    lemma_taken_out(n, idx);
    let home = s.refuge_from(idx).id;
    assert forall|c: OutputId| c != o.id implies view_core(r.pool, #[trigger] r.view_of(a, c))
        == s.left_on(idx, a, c) by {
        if c != home {
            assert(r.view_of(a, c) == s.view_of(a, c));
            crate::cores::lemma_same_core(s.pool, r.pool, o);
        }
        assert(n.acts.has(a));
    }
    let k = s.monitor_pos(b).unwrap();
    lemma_find_from(s.monitors, on_output(b), 0);
    let k2 = if k < idx {
        k
    } else {
        k - 1
    };
    assert(s.monitors.remove(idx)[k2] == s.monitors[k]);
    assert(r.monitors[k2].output == u.monitors[k2].output);
    assert(u.monitors[k2].output == s.monitors[k].output);
    lemma_same_ids(s.acts, u.acts);
    lemma_act(u.acts, a);
    assert(u.view_of(u.acts.list[u.acts.pos(a).unwrap()].id, u.monitors[k2].output.id) is Some);
    let w = u.view_of(a, b).unwrap();
    if ids.len() == 0 {
        assert forall|j: int| 0 <= j < w.ids.len() implies !(#[trigger] q(w.ids[j])) by {}
        lemma_filter_none(w.ids, q);
        assert(ids =~= Seq::empty());
    } else {
        assert(view_core(r.pool, r.view_of(a, b)) == ids);
        assert(r.view_of(a, b) is Some);
        let wr = r.view_of(a, b).unwrap();
        let p = worth_keeping(r.pool);
        lemma_view_is_ok(r, a, b);
        lemma_filter(wr.ids, p);
        lemma_filter(wr.ids, q);
        assert(wr.ids.filter(p) == ids);
        assert forall|x: WorkspaceId| #[trigger] q(x) implies wr.ids.contains(x) && p(x)
            && r.pool.member(x, a) by {
            assert(wr.ids.filter(p).contains(x));
        }
        lemma_filter_filter(wr.ids, p, q);
        assert forall|j: int| 0 <= j < ids.len() implies #[trigger] q(ids[j]) by {}
        crate::cores::lemma_filter_all(ids, q);
        assert(wr.ids.filter(q) == ids);
        let (i, _) = lemma_view_entry(r, a, b);
        let entries = r.acts.list[i].views;
        assert(r.acts.get(a) == Some(r.acts.list[i]));
        assert(crate::coherence::activity_ok(r.pool, r.acts.list[i]));
        assert forall|j: int, x: WorkspaceId|
            0 <= j < entries.len() && entries[j].output != b && #[trigger] q(x) implies !(
        #[trigger] entries[j].view.ids.contains(x)) by {
            let c = entries[j].output;
            lemma_find_from(entries, keyed(c), 0);
            assert(keyed(c)(entries[j]));
            let f = find(entries, keyed(c)).unwrap();
            if f < j {
                assert(entries[f].output != entries[j].output);
            }
            assert(r.view_of(a, c) == Some(entries[j].view));
            assert(c != o.id) by {
                assert(r.view_of(a, o.id) is None);
            }
            if entries[j].view.ids.contains(x) {
                assert(r.shows_on(a, c, x));
                assert(p(x));
                lemma_core_holds(r, a, c, x);
                assert(s.left_on(idx, a, c).contains(x));
                lemma_left_on(s, idx, a, c, x);
                lemma_left_on(s, idx, a, b, x);
                assert(b != c);
                let y = if s.shows_on(a, b, x) {
                    b
                } else {
                    o.id
                };
                let z = if s.shows_on(a, c, x) {
                    c
                } else {
                    o.id
                };
                assert(s.shows_on(a, y, x) && s.shows_on(a, z, x));
                assert(y != z);
            }
        }
        lemma_find_from(r.monitors, on_output(b), 0);
        assert(on_output(b)(r.monitors[k2]));
        lemma_mended_pick(r, a, b, q);
    }
}

/// The first output shows what waited for one to every activity that it belongs to, unchanged.
pub proof fn law_first_output_takes_in(
    t: LayoutModel,
    output: Output,
    leading: Option<bool>,
    x: WorkspaceId,
    a: ActivityId,
)
    requires
        t.whole(),
        t.monitors.len() == 0,
        output.id.0 != 0,
        t.connect(output, leading).fits(),
        t.parked.contains(x),
    ensures
        spares(t.pool, t.connect(output, leading).pool, output),
        t.connect(output, leading).shows_on(a, output.id, x) <==> t.pool.member(x, a),
{
    let u = t.connect(output, leading);
    lemma_connect(t, output, leading);
    let k = choose|k: int| 0 <= k < t.parked.len() && t.parked[k] == x;
    assert(t.pool.busy(t.parked[k]));
    assert(u.pool.busy(x));
    if t.pool.member(x, a) {
        assert(u.pool.member(x, a));
        let o = choose|o: OutputId| u.shows_on(a, o, x);
        assert(u.monitor_pos(o) is Some);
        lemma_find_from(u.monitors, on_output(o), 0);
    }
    if u.shows_on(a, output.id, x) {
        lemma_view_is_ok(u, a, output.id);
        assert(u.pool.member(x, a));
    }
}

} // verus!
