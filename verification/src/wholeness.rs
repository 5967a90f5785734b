//! Nothing that an operation leaves undone outlives it.

use vstd::prelude::*;

use crate::activity::{holding, keyed, EntryModel};
use crate::belonging::{lemma_entry_is_view, lemma_stray};
use crate::coherence::{
    activity_ok, acts_ok, lemma_act, lemma_act_pos, lemma_get, lemma_pos_of, lemma_same_ids,
    lemma_view_is_ok, member_ok, members_ok, pool_ok, view_ok,
};
use crate::connecting::lemma_add_view_views;
use crate::ids::{ActivityId, OutputId, WorkspaceId};
use crate::changing::{lists_once, previous_ok};
use crate::cores::{apart, lemma_filter_all};
use crate::disconnect::firsts;
use crate::keeping_outputs::lemma_firsts;
use crate::keeping_views::{lemma_filter, lemma_ids_of_filter, lemma_open_over};
use crate::layout::{on_output, LayoutModel};
use crate::materialize::ids_of;
use crate::membership::distinct;
use crate::mending::{covers, cut, in_use, in_use_beside, new_to, news, shown_among, untangled, within};
use crate::monitor::Monitor;
use crate::outputs::worth_keeping;
use crate::parking::lemma_firsts_same;
use crate::pool::PoolModel;
use crate::promises::lemma_normalize_mons_idle;
use crate::search::{equal_to, find, lemma_find_from};
use crate::view::ViewModel;
use crate::workspace::WorkspaceModel;

verus! {

impl LayoutModel {
    /// Every activity shows the workspaces that belong to it.
    pub open spec fn all_seen(self) -> bool {
        forall|x: WorkspaceId, a: ActivityId| #[trigger]
            self.pool.member(x, a) ==> exists|b: OutputId| self.shows_on(a, b, x)
    }

    /// No two monitors are of the same output.
    pub open spec fn outputs_apart(self) -> bool {
        &&& forall|i: int| 0 <= i < self.monitors.len() ==> (#[trigger] self.monitors[i]).output.id.0
            != 0
        &&& forall|i: int, j: int|
            0 <= i < j < self.monitors.len() ==> apart(
                (#[trigger] self.monitors[i]).output,
                (#[trigger] self.monitors[j]).output,
            )
    }

    /// Every view is of a connected output.
    pub open spec fn all_connected(self) -> bool {
        forall|a: ActivityId, o: OutputId| #[trigger]
            self.view_of(a, o) is Some ==> self.monitor_pos(o) is Some
    }

    /// Everything waits that there is, once, and has windows or a name; nothing waits while an
    /// output is connected.
    pub open spec fn waits_orderly(self) -> bool {
        &&& self.parked.no_duplicates()
        &&& forall|i: int| 0 <= i < self.parked.len() ==> self.pool.busy(#[trigger] self.parked[i])
        &&& self.monitors.len() == 0 ==> forall|x: WorkspaceId| #[trigger]
            self.pool.has(x) ==> self.parked.contains(x)
    }

    /// What holds of the layout whenever no operation is under way. Pool, activities and views fit
    /// together. Every activity has one view of each connected output and no others. Each view ends
    /// with an empty workspace and, where the output asks for it, begins with one. A workspace is
    /// shown by each of its activities, once, and by no other; without an output, each waits. It
    /// lists no activity twice. The activity that was active before is another one that exists. The
    /// primary and the focused monitor are there.
    pub open spec fn whole(self) -> bool {
        &&& self.coherent()
        &&& self.outputs_apart()
        &&& self.complete()
        &&& self.all_connected()
        &&& self.shown_once()
        &&& self.all_end_empty()
        &&& self.monitors.len() > 0 ==> self.all_seen()
        &&& self.waits_orderly()
        &&& lists_once(self.pool)
        &&& previous_ok(self.acts)
        &&& self.pointed()
    }

    /// The primary and the focused monitor are there.
    pub open spec fn pointed(self) -> bool {
        &&& self.primary == within(self.primary, self.monitors.len() as int)
        &&& self.focused == within(self.focused, self.monitors.len() as int)
    }

    /// Pool and activities are in order, whatever the views show.
    pub open spec fn staffed(self) -> bool {
        &&& pool_ok(self.pool)
        &&& acts_ok(self.acts)
        &&& members_ok(self.pool, self.acts)
    }

    /// What makes a layout whole but for its bookends and for workspaces that are not shown.
    pub open spec fn laid_out(self) -> bool {
        &&& self.coherent()
        &&& self.all_connected()
        &&& self.shown_once()
        &&& self.monitors.len() > 0
    }
}

/// No two of `entries` are of the same output, and none shows what another one does.
pub open spec fn entries_apart(entries: Seq<EntryModel>) -> bool {
    forall|i: int, j: int|
        0 <= i < j < entries.len() ==> (#[trigger] entries[i]).output != (
        #[trigger] entries[j]).output && forall|x: WorkspaceId|
            !(#[trigger] entries[i].view.ids.contains(x) && entries[j].view.ids.contains(x))
}

/// A view cut down to workspaces of its activity is in order.
pub proof fn lemma_cut(pool: PoolModel, act: ActivityId, v: ViewModel, ids: Seq<WorkspaceId>)
    requires
        ids.len() > 0,
        ids.no_duplicates(),
        forall|x: WorkspaceId| #[trigger] ids.contains(x) ==> pool.member(x, act),
    ensures
        view_ok(pool, act, cut(v, ids)),
{
    assert(ids.contains(ids[0]));
}

/// What is new in a view is its activity's own, and once.
pub proof fn lemma_news(pool: PoolModel, act: ActivityId, entries: Seq<EntryModel>, v: ViewModel)
    ensures
        news(pool, act, entries, v).no_duplicates(),
        forall|x: WorkspaceId| #[trigger]
            news(pool, act, entries, v).contains(x) <==> v.ids.contains(x) && pool.member(x, act)
                && !shown_among(entries, x),
{
    let p = new_to(pool, act, entries);
    lemma_filter(v.ids, p);
    lemma_firsts(v.ids.filter(p));
    assert forall|x: WorkspaceId| #[trigger]
        news(pool, act, entries, v).contains(x) <==> v.ids.contains(x) && pool.member(x, act)
            && !shown_among(entries, x) by {
        assert(v.ids.filter(p).contains(x) <==> v.ids.contains(x) && p(x));
    }
}

/// What untangled views are like.
pub proof fn lemma_untangled(
    pool: PoolModel,
    monitors: Seq<Monitor>,
    act: ActivityId,
    entries: Seq<EntryModel>,
)
    ensures
        ({
            let r = untangled(pool, monitors, act, entries);
            &&& forall|j: int| 0 <= j < r.len() ==> view_ok(pool, act, (#[trigger] r[j]).view)
            &&& forall|j: int|
                0 <= j < r.len() ==> find(monitors, on_output((#[trigger] r[j]).output)) is Some
            &&& entries_apart(r)
        }),
    decreases entries.len(),
{
    if entries.len() > 0 {
        let before = entries.drop_last();
        lemma_untangled(pool, monitors, act, before);
        let rest = untangled(pool, monitors, act, before);
        let e = entries.last();
        let ids = news(pool, act, rest, e.view);
        let r = untangled(pool, monitors, act, entries);
        lemma_news(pool, act, rest, e.view);
        if find(monitors, on_output(e.output)) is Some && !covers(rest, e.output) && ids.len() > 0 {
            lemma_cut(pool, act, e.view, ids);
            assert(r == rest.push(EntryModel { view: cut(e.view, ids), ..e }));
            assert forall|i: int, j: int| 0 <= i < j < r.len() implies (#[trigger] r[i]).output != (
            #[trigger] r[j]).output && forall|x: WorkspaceId|
                !(#[trigger] r[i].view.ids.contains(x) && r[j].view.ids.contains(x)) by {
                if j < rest.len() {
                    assert(r[i] == rest[i] && r[j] == rest[j]);
                } else {
                    assert(r[i] == rest[i]);
                    assert(rest[i].output != e.output);
                    assert forall|x: WorkspaceId|
                        !(#[trigger] r[i].view.ids.contains(x) && r[j].view.ids.contains(x)) by {
                        if r[j].view.ids.contains(x) {
                            assert(ids.contains(x));
                            assert(!shown_among(rest, x));
                            assert(!rest[i].view.ids.contains(x));
                        }
                    }
                }
            }
        } else {
            assert(r == rest);
        }
    }
}

/// In a coherent layout, a view is one of its activity's entries.
pub proof fn lemma_view_entry(s: LayoutModel, a: ActivityId, o: OutputId) -> (ij: (int, int))
    requires
        s.view_of(a, o) is Some,
    ensures
        0 <= ij.0 < s.acts.list.len(),
        s.acts.list[ij.0].id == a,
        0 <= ij.1 < s.acts.list[ij.0].views.len(),
        s.acts.list[ij.0].views[ij.1].output == o,
        s.view_of(a, o) == Some(s.acts.list[ij.0].views[ij.1].view),
        s.acts.pos(a) == Some(ij.0),
{
    lemma_find_from(s.acts.list, crate::activity::named(a), 0);
    let i = s.acts.pos(a).unwrap();
    lemma_find_from(s.acts.list[i].views, keyed(o), 0);
    (i, s.acts.list[i].view_pos(o).unwrap())
}

/// Untangling leaves nothing that is shown twice or on an output that is not connected.
pub proof fn lemma_untangle(s: LayoutModel)
    requires
        s.staffed(),
        s.monitors.len() > 0,
    ensures
        s.untangle().laid_out(),
{
    let t = s.untangle();
    crate::mending::lemma_untangle_leads(s);
    lemma_same_ids(s.acts, t.acts);
    assert forall|i: int| 0 <= i < t.acts.list.len() implies activity_ok(
        t.pool,
        #[trigger] t.acts.list[i],
    ) && entries_apart(t.acts.list[i].views) && forall|j: int|
        0 <= j < t.acts.list[i].views.len() ==> t.monitor_pos(
            (#[trigger] t.acts.list[i].views[j]).output,
        ) is Some by {
        let a = s.acts.list[i];
        lemma_untangled(s.pool, s.monitors, a.id, a.views);
        let r = t.acts.list[i].views;
        assert forall|x: int, y: int| 0 <= x < y < r.len() implies (#[trigger] r[x]).output != (
        #[trigger] r[y]).output by {}
    }
    assert(acts_ok(t.acts)) by {
        assert forall|i: int, j: int| 0 <= i < j < t.acts.list.len() implies (
        #[trigger] t.acts.list[i]).id != (#[trigger] t.acts.list[j]).id by {
            assert(s.acts.list[i].id != s.acts.list[j].id);
        }
        assert forall|i: int| 0 <= i < t.acts.list.len() implies (#[trigger] t.acts.list[i]).id.0
            < t.acts.next by {
            assert(s.acts.list[i].id.0 < s.acts.next);
        }
    }
    assert forall|i: int| 0 <= i < t.pool.items.len() implies member_ok(
        t.acts,
        #[trigger] t.pool.items[i],
    ) by {
        assert(member_ok(s.acts, s.pool.items[i]));
    }
    assert(t.coherent());
    assert forall|a: ActivityId, o: OutputId| #[trigger] t.view_of(a, o) is Some implies t.monitor_pos(
        o,
    ) is Some by {
        let (i, j) = lemma_view_entry(t, a, o);
        assert(activity_ok(t.pool, t.acts.list[i]));
        assert(t.monitor_pos(t.acts.list[i].views[j].output) is Some);
    }
    assert forall|act: ActivityId, o1: OutputId, o2: OutputId, x: WorkspaceId|
        o1 != o2 && #[trigger] t.shows_on(act, o1, x) implies !(#[trigger] t.shows_on(
        act,
        o2,
        x,
    )) by {
        if t.shows_on(act, o2, x) {
            let (i, j) = lemma_view_entry(t, act, o1);
            let (i2, k) = lemma_view_entry(t, act, o2);
            assert(entries_apart(t.acts.list[i].views));
            let r = t.acts.list[i].views;
            if j < k {
                assert(r[j].output != r[k].output);
            } else {
                assert(r[k].output != r[j].output);
            }
        }
    }
}

/// An empty view opened where there was none disturbs nothing.
pub proof fn lemma_open_bare(s: LayoutModel, mon: int, act: ActivityId)
    requires
        s.laid_out(),
        0 <= mon < s.monitors.len(),
        s.acts.has(act),
        s.open_bare(mon, act).fits(),
    ensures
        ({
            let t = s.open_bare(mon, act);
            &&& t.laid_out()
            &&& t.view_of(act, s.monitors[mon].output.id) is Some
            &&& forall|a: ActivityId, o: OutputId| #[trigger]
                s.view_of(a, o) is Some ==> t.view_of(a, o) == s.view_of(a, o)
        }),
{
    let out = s.monitors[mon].output.id;
    let t = s.open_bare(mon, act);
    crate::mending::lemma_open_bare_leads(s, mon, act);
    if s.view_of(act, out) is None {
        let bottom = s.pool.next_id();
        let v = crate::materialize::framed(Seq::empty(), bottom, None);
        lemma_open_over(s, mon, act, Seq::empty());
        lemma_add_view_views(s.acts, act, out, v);
        assert(v.ids =~= seq![bottom]);
        lemma_find_from(t.monitors, on_output(out), 0);
        assert(on_output(out)(t.monitors[mon]));
        assert forall|a: ActivityId, o: OutputId| #[trigger] t.view_of(
            a,
            o,
        ) is Some implies t.monitor_pos(o) is Some by {
            if a != act || o != out {
                assert(s.view_of(a, o) is Some);
            }
        }
        assert forall|c: ActivityId, o1: OutputId, o2: OutputId, x: WorkspaceId|
            o1 != o2 && #[trigger] t.shows_on(c, o1, x) implies !(#[trigger] t.shows_on(
            c,
            o2,
            x,
        )) by {
            assert(c != act || o1 != out ==> t.view_of(c, o1) == s.view_of(c, o1));
            assert(c != act || o2 != out ==> t.view_of(c, o2) == s.view_of(c, o2));
            if t.shows_on(c, o2, x) {
                if c == act && (o1 == out || o2 == out) {
                    let o = if o1 == out {
                        o2
                    } else {
                        o1
                    };
                    assert(x == bottom) by {
                        assert(v.ids.contains(x));
                    }
                    assert(s.shows_on(c, o, x));
                    lemma_view_is_ok(s, c, o);
                    assert(s.pool.member(x, c));
                    lemma_get(s.pool, x);
                } else {
                    assert(s.shows_on(c, o1, x));
                    assert(s.shows_on(c, o2, x));
                }
            }
        }
    }
}

/// Empty views opened for an activity disturb nothing.
pub proof fn lemma_bare_row(s: LayoutModel, act: ActivityId, n: int)
    requires
        s.laid_out(),
        n <= s.monitors.len(),
        s.acts.has(act),
        s.bare_row(act, n).fits(),
    ensures
        ({
            let t = s.bare_row(act, n);
            &&& t.laid_out()
            &&& forall|m: int|
                0 <= m < n ==> t.view_of(act, (#[trigger] s.monitors[m]).output.id) is Some
            &&& forall|a: ActivityId, o: OutputId| #[trigger]
                s.view_of(a, o) is Some ==> t.view_of(a, o) == s.view_of(a, o)
        }),
    decreases n,
{
    if n > 0 {
        let t = s.bare_row(act, n - 1);
        crate::mending::lemma_bare_row_leads(s, act, 0, n - 1);
        crate::mending::lemma_open_bare_leads(t, n - 1, act);
        lemma_bare_row(s, act, n - 1);
        lemma_same_ids(s.acts, t.acts);
        assert(t.acts.has(act));
        lemma_open_bare(t, n - 1, act);
        let u = s.bare_row(act, n);
        assert(t.monitors[n - 1].output == s.monitors[n - 1].output);
        assert forall|a: ActivityId, o: OutputId| #[trigger] s.view_of(
            a,
            o,
        ) is Some implies u.view_of(a, o) == s.view_of(a, o) by {
            assert(t.view_of(a, o) == s.view_of(a, o));
        }
        assert forall|m: int| 0 <= m < n implies u.view_of(
            act,
            (#[trigger] s.monitors[m]).output.id,
        ) is Some by {
            if m < n - 1 {
                assert(t.view_of(act, s.monitors[m].output.id) is Some);
            }
        }
    }
}

/// Once empty views are opened, every activity has a view of every monitor.
pub proof fn lemma_bare_rows(s: LayoutModel, n: int)
    requires
        s.laid_out(),
        0 <= n <= s.acts.list.len(),
        s.bare_rows(n).fits(),
    ensures
        ({
            let t = s.bare_rows(n);
            &&& t.laid_out()
            &&& forall|i: int, m: int|
                0 <= i < n && 0 <= m < s.monitors.len() ==> t.view_of(
                    (#[trigger] s.acts.list[i]).id,
                    (#[trigger] s.monitors[m]).output.id,
                ) is Some
            &&& forall|a: ActivityId, o: OutputId| #[trigger]
                s.view_of(a, o) is Some ==> t.view_of(a, o) == s.view_of(a, o)
        }),
    decreases n,
{
    if n > 0 {
        let t = s.bare_rows(n - 1);
        let act = s.acts.list[n - 1].id;
        let k = s.monitors.len() as int;
        crate::mending::lemma_bare_rows_leads(s, 0, n - 1);
        crate::mending::lemma_bare_row_leads(t, act, 0, k);
        lemma_bare_rows(s, n - 1);
        lemma_same_ids(s.acts, t.acts);
        lemma_act_pos(s.acts, n - 1);
        assert(t.acts.has(act));
        lemma_bare_row(t, act, k);
        let u = s.bare_rows(n);
        assert forall|i: int, m: int| 0 <= i < n && 0 <= m < s.monitors.len() implies u.view_of(
            (#[trigger] s.acts.list[i]).id,
            (#[trigger] s.monitors[m]).output.id,
        ) is Some by {
            assert(t.monitors[m].output == s.monitors[m].output);
            if i < n - 1 {
                assert(t.view_of(s.acts.list[i].id, s.monitors[m].output.id) is Some);
            } else {
                assert(u.view_of(act, t.monitors[m].output.id) is Some);
            }
        }
        assert forall|a: ActivityId, o: OutputId| #[trigger] s.view_of(
            a,
            o,
        ) is Some implies u.view_of(a, o) == s.view_of(a, o) by {
            assert(t.view_of(a, o) == s.view_of(a, o));
        }
    }
}

/// A layout with a view of every output for every activity.
pub proof fn lemma_covered(s: LayoutModel)
    requires
        s.staffed(),
        s.monitors.len() > 0,
        s.covered().fits(),
    ensures
        s.covered().laid_out(),
        s.covered().complete(),
{
    lemma_untangle(s);
    let u = s.untangle();
    let n = u.acts.list.len() as int;
    lemma_bare_rows(u, n);
    crate::mending::lemma_bare_rows_leads(u, 0, n);
    let t = s.covered();
    assert(t.acts.list.len() == t.acts.ids().len());
    assert(u.acts.list.len() == u.acts.ids().len());
    assert forall|i: int, m: int|
        0 <= i < t.acts.list.len() && 0 <= m < t.monitors.len() implies t.view_of(
        (#[trigger] t.acts.list[i]).id,
        (#[trigger] t.monitors[m]).output.id,
    ) is Some by {
        assert(t.acts.ids()[i] == t.acts.list[i].id);
        assert(u.acts.ids()[i] == u.acts.list[i].id);
        assert(t.monitors[m].output == u.monitors[m].output);
        assert(t.view_of(u.acts.list[i].id, u.monitors[m].output.id) is Some);
    }
}

/// What is picked from a pool is a pool with the same workspaces, as far as they are picked.
pub proof fn lemma_pool_filter(p: PoolModel, f: spec_fn(WorkspaceModel) -> bool, n: int)
    requires
        p.wf(),
        0 <= n <= p.items.len(),
    ensures
        ({
            let r = p.items.take(n).filter(f);
            &&& forall|i: int, j: int|
                0 <= i < j < r.len() ==> (#[trigger] r[i]).id.0 < (#[trigger] r[j]).id.0
            &&& forall|i: int| 0 <= i < r.len() ==> f(#[trigger] r[i]) && p.get(r[i].id) == Some(r[i])
                && (n > 0 ==> r[i].id.0 <= p.items[n - 1].id.0)
            &&& forall|k: int| 0 <= k < n && f(#[trigger] p.items[k]) ==> r.contains(p.items[k])
        }),
    decreases n,
{
    reveal(Seq::filter);
    let r = p.items.take(n).filter(f);
    if n > 0 {
        lemma_pool_filter(p, f, n - 1);
        let q = p.items.take(n - 1).filter(f);
        let w = p.items[n - 1];
        assert(p.items.take(n).drop_last() =~= p.items.take(n - 1));
        lemma_pos_of(p, n - 1);
        if n > 1 {
            assert(p.items[n - 2].id.0 < p.items[n - 1].id.0);
        }
        if f(w) {
            assert(r == q.push(w));
            assert forall|k: int| 0 <= k < n && f(#[trigger] p.items[k]) implies r.contains(
                p.items[k],
            ) by {
                if k < n - 1 {
                    let j = choose|j: int| 0 <= j < q.len() && q[j] == p.items[k];
                    assert(r[j] == p.items[k]);
                } else {
                    assert(r[q.len() as int] == w);
                }
            }
            assert forall|i: int, j: int| 0 <= i < j < r.len() implies (#[trigger] r[i]).id.0 < (
            #[trigger] r[j]).id.0 by {
                if j == q.len() {
                    assert(r[i] == q[i]);
                    if n == 1 {
                        assert(p.items.take(0).filter(f).len() == 0);
                    }
                } else {
                    assert(r[i] == q[i] && r[j] == q[j]);
                }
            }
            assert forall|i: int| 0 <= i < r.len() implies f(#[trigger] r[i]) && p.get(r[i].id)
                == Some(r[i]) && (n > 0 ==> r[i].id.0 <= p.items[n - 1].id.0) by {
                if i < q.len() {
                    assert(r[i] == q[i]);
                }
            }
        } else {
            assert(r == q);
            assert forall|i: int| 0 <= i < r.len() implies f(#[trigger] r[i]) && p.get(r[i].id)
                == Some(r[i]) && (n > 0 ==> r[i].id.0 <= p.items[n - 1].id.0) by {
                assert(r[i] == q[i]);
            }
        }
    }
}

/// The pool of what is picked.
pub open spec fn picked(p: PoolModel, f: spec_fn(WorkspaceModel) -> bool) -> PoolModel {
    PoolModel { items: p.items.filter(f), ..p }
}

/// What the pool of what is picked holds.
pub proof fn lemma_picked(p: PoolModel, f: spec_fn(WorkspaceModel) -> bool)
    requires
        pool_ok(p),
    ensures
        pool_ok(picked(p, f)),
        forall|x: WorkspaceId| #[trigger]
            picked(p, f).get(x) == match p.get(x) {
                Some(w) => if f(w) {
                    Some(w)
                } else {
                    None
                },
                None => None,
            },
        forall|i: int|
            0 <= i < picked(p, f).items.len() ==> p.items.contains(
                #[trigger] picked(p, f).items[i],
            ),
{
    let n = p.items.len() as int;
    let q = picked(p, f);
    assert(p.items.take(n) =~= p.items);
    lemma_pool_filter(p, f, n);
    assert forall|i: int| 0 <= i < q.items.len() implies (#[trigger] q.items[i]).id.0 < q.next
        && p.items.contains(q.items[i]) by {
        lemma_get(p, q.items[i].id);
        let k = p.pos(q.items[i].id).unwrap();
        assert(p.items[k] == q.items[i]);
        assert(p.items[k].id.0 < p.next);
    }
    assert(q.wf());
    assert forall|x: WorkspaceId| #[trigger] q.get(x) == match p.get(x) {
        Some(w) => if f(w) {
            Some(w)
        } else {
            None
        },
        None => None,
    } by {
        lemma_get(p, x);
        lemma_get(q, x);
        if let Some(w) = p.get(x) {
            if f(w) {
                let k = p.pos(x).unwrap();
                assert(q.items.contains(p.items[k]));
                let j = choose|j: int| 0 <= j < q.items.len() && q.items[j] == p.items[k];
                lemma_pos_of(q, j);
            }
        }
        if let Some(w) = q.get(x) {
            let j = q.pos(x).unwrap();
            assert(f(q.items[j]));
            assert(p.get(q.items[j].id) == Some(q.items[j]));
        }
    }
}

/// What an activity shows is shown somewhere.
pub proof fn lemma_is_shown(s: LayoutModel, a: ActivityId, o: OutputId, x: WorkspaceId)
    requires
        s.coherent(),
        s.shows_on(a, o, x),
    ensures
        s.is_shown(x),
        s.shows_in(a, x),
{
    lemma_stray(s, a, x);
    lemma_act(s.acts, a);
    let c = s.acts.get(a).unwrap();
    lemma_find_from(c.views, holding(x), 0);
    assert(c.output_of(x) is Some);
    lemma_find_from(s.acts.list, crate::transfer::shows_workspace(x), 0);
    assert(crate::transfer::shows_workspace(x)(s.acts.list[s.acts.pos(a).unwrap()]));
    let i = find(s.acts.list, crate::transfer::shows_workspace(x)).unwrap();
    assert(crate::transfer::shows_workspace(x)(s.acts.list[i]));
}

/// What an activity shows it shows on some output.
pub proof fn lemma_shown_on(s: LayoutModel, a: ActivityId, x: WorkspaceId) -> (o: OutputId)
    requires
        s.coherent(),
        s.shows_in(a, x),
    ensures
        s.shows_on(a, o, x),
        s.acts.get(a).unwrap().output_of(x) == Some(o),
{
    lemma_stray(s, a, x);
    let c = s.acts.get(a).unwrap();
    lemma_find_from(c.views, holding(x), 0);
    s.stray(a, x).unwrap().output
}

/// Throwing away what is not needed disturbs nothing.
pub proof fn lemma_discard(s: LayoutModel)
    requires
        s.laid_out(),
        s.complete(),
    ensures
        s.discard().laid_out(),
        s.discard().complete(),
        forall|x: WorkspaceId| #[trigger] s.discard().pool.has(x) ==> s.pool.busy(x) || s.is_shown(x),
        forall|x: WorkspaceId| #[trigger]
            s.discard().pool.has(x) ==> s.discard().pool.get(x) == s.pool.get(x),
        lists_once(s.pool) ==> lists_once(s.discard().pool),
{
    let t = s.discard();
    let f = s.needed();
    lemma_picked(s.pool, f);
    assert(t.pool == picked(s.pool, f));
    assert forall|x: WorkspaceId| #[trigger] t.pool.has(x) implies t.pool.get(x) == s.pool.get(x)
        && (s.pool.busy(x) || s.is_shown(x)) by {
        lemma_get(s.pool, x);
        assert(t.pool.get(x) is Some);
    }
    assert forall|i: int| 0 <= i < t.acts.list.len() implies activity_ok(
        t.pool,
        #[trigger] t.acts.list[i],
    ) by {
        let a = s.acts.list[i];
        assert(activity_ok(s.pool, a));
        assert forall|j: int| 0 <= j < a.views.len() implies view_ok(
            t.pool,
            a.id,
            (#[trigger] a.views[j]).view,
        ) by {
            assert(view_ok(s.pool, a.id, a.views[j].view));
            lemma_entry_is_view(s, i, j);
            assert forall|x: WorkspaceId| #[trigger] a.views[j].view.ids.contains(
                x,
            ) implies t.pool.member(x, a.id) by {
                assert(s.pool.member(x, a.id));
                lemma_is_shown(s, a.id, a.views[j].output, x);
                lemma_get(s.pool, x);
                assert(f(s.pool.get(x).unwrap()));
            }
        }
    }
    assert forall|i: int| 0 <= i < t.pool.items.len() implies member_ok(
        t.acts,
        #[trigger] t.pool.items[i],
    ) by {
        let k = choose|k: int| 0 <= k < s.pool.items.len() && s.pool.items[k] == t.pool.items[i];
        assert(member_ok(s.acts, s.pool.items[k]));
    }
    assert(lists_once(s.pool) ==> lists_once(t.pool)) by {
        if lists_once(s.pool) {
            assert forall|i: int| 0 <= i < t.pool.items.len() implies (
            #[trigger] t.pool.items[i]).activities.no_duplicates() by {
                assert(s.pool.items.contains(t.pool.items[i]));
                let k = choose|k: int|
                    0 <= k < s.pool.items.len() && s.pool.items[k] == t.pool.items[i];
                assert(s.pool.items[k].activities.no_duplicates());
            }
        }
    }
    assert forall|a: ActivityId, o: OutputId| #[trigger] t.view_of(a, o) is Some implies t.monitor_pos(
        o,
    ) is Some by {
        assert(s.view_of(a, o) is Some);
        assert(s.monitor_pos(o) is Some);
    }
    assert forall|c: ActivityId, o1: OutputId, o2: OutputId, x: WorkspaceId|
        o1 != o2 && #[trigger] t.shows_on(c, o1, x) implies !(#[trigger] t.shows_on(c, o2, x)) by {
        assert(s.shows_on(c, o1, x));
        assert(!s.shows_on(c, o2, x));
    }
}

/// A workspace that is to be shown has a view to go to.
pub proof fn lemma_seat_of(s: LayoutModel, act: ActivityId, id: WorkspaceId)
    requires
        s.laid_out(),
        s.complete(),
        s.acts.has(act),
    ensures
        s.view_of(act, s.seat_of(id)) is Some,
{
    let out = s.seat_of(id);
    lemma_act(s.acts, act);
    let i = s.acts.pos(act).unwrap();
    if let Some(o) = s.holding_output(id) {
        lemma_find_from(s.acts.list, crate::transfer::shows_workspace(id), 0);
        let k = find(s.acts.list, crate::transfer::shows_workspace(id)).unwrap();
        let c = s.acts.list[k];
        lemma_act_pos(s.acts, k);
        assert(s.shows_in(c.id, id));
        let o2 = lemma_shown_on(s, c.id, id);
        assert(o2 == o);
        assert(s.view_of(c.id, o) is Some);
    }
    lemma_find_from(s.monitors, on_output(out), 0);
    assert(s.monitor_pos(out) is Some) by {
        if s.monitor_pos(out) is None {
            assert(!on_output(out)(s.monitors[0]));
        }
    }
    let m = s.monitor_pos(out).unwrap();
    assert(on_output(out)(s.monitors[m]));
    assert(s.view_of(s.acts.list[i].id, s.monitors[m].output.id) is Some);
}

/// Showing a workspace to one of its activities shows it there, once, and hides nothing.
pub proof fn lemma_seat(s: LayoutModel, act: ActivityId, id: WorkspaceId)
    requires
        s.laid_out(),
        s.complete(),
        s.acts.has(act),
    ensures
        ({
            let t = s.seat(act, id);
            &&& t.laid_out()
            &&& t.complete()
            &&& t.pool == s.pool
            &&& t.acts.ids() == s.acts.ids()
            &&& t.monitors == s.monitors
            &&& s.pool.member(id, act) ==> exists|o: OutputId| t.shows_on(act, o, id)
            &&& forall|a: ActivityId, o: OutputId, x: WorkspaceId| #[trigger]
                s.shows_on(a, o, x) ==> t.shows_on(a, o, x)
        }),
{
    let t = s.seat(act, id);
    if s.pool.member(id, act) {
        if s.shows_in(act, id) {
            let o = lemma_shown_on(s, act, id);
            assert(t.shows_on(act, o, id));
        } else {
            let out = s.seat_of(id);
            lemma_seat_of(s, act, id);
            crate::keeping_views::lemma_install_into(s, act, out, id);
            crate::outputs::lemma_install_into_leads(s, act, out, id);
            lemma_same_ids(s.acts, t.acts);
            let v = s.view_of(act, out).unwrap();
            lemma_view_is_ok(s, act, out);
            lemma_find_from(v.ids, equal_to(id), 0);
            assert(!v.ids.contains(id)) by {
                if v.ids.contains(id) {
                    lemma_is_shown(s, act, out, id);
                }
            }
            assert(v.position_of(id) is None) by {
                if let Some(k) = v.position_of(id) {
                    assert(v.ids[k] == id);
                }
            }
            let pos = crate::transfer::landing(s.pool, v, id);
            let w = v.insert(pos, id);
            crate::view::lemma_insert_wf(v, pos, id);
            crate::transfer::lemma_view_after_set(s.acts, act, out, w);
            assert forall|a: ActivityId, o: OutputId| #[trigger] t.view_of(a, o) == if a == act && o
                == out {
                Some(w)
            } else {
                s.view_of(a, o)
            } by {
                if a != act || o != out {
                    crate::transfer::lemma_view_after_set_other(s.acts, act, out, w, a, o);
                }
            }
            assert(t.shows_on(act, out, id));
            assert forall|c: ActivityId, o1: OutputId, o2: OutputId, x: WorkspaceId|
                o1 != o2 && #[trigger] t.shows_on(c, o1, x) implies !(#[trigger] t.shows_on(
                c,
                o2,
                x,
            )) by {
                if t.shows_on(c, o2, x) {
                    if c == act && x == id {
                        let o = if o1 == out {
                            o2
                        } else {
                            o1
                        };
                        assert(s.shows_on(act, o, id));
                        lemma_is_shown(s, act, o, id);
                    } else {
                        assert(s.shows_on(c, o1, x));
                        assert(s.shows_on(c, o2, x));
                    }
                }
            }
            assert(t.acts.list.len() == t.acts.ids().len());
            assert(s.acts.list.len() == s.acts.ids().len());
            assert forall|i: int, m: int|
                0 <= i < t.acts.list.len() && 0 <= m < t.monitors.len() implies t.view_of(
                (#[trigger] t.acts.list[i]).id,
                (#[trigger] t.monitors[m]).output.id,
            ) is Some by {
                assert(t.acts.ids()[i] == t.acts.list[i].id);
                assert(s.acts.ids()[i] == s.acts.list[i].id);
                assert(s.view_of(s.acts.list[i].id, s.monitors[m].output.id) is Some);
            }
        }
    }
}

/// A workspace is shown by all its activities once it was shown to each.
pub proof fn lemma_seat_acts(s: LayoutModel, id: WorkspaceId, n: int)
    requires
        s.laid_out(),
        s.complete(),
        0 <= n <= s.acts.list.len(),
    ensures
        ({
            let t = s.seat_acts(id, n);
            &&& t.laid_out()
            &&& t.complete()
            &&& t.pool == s.pool
            &&& t.acts.ids() == s.acts.ids()
            &&& t.monitors == s.monitors
            &&& forall|i: int|
                0 <= i < n && s.pool.member(id, (#[trigger] s.acts.list[i]).id) ==> exists|
                    o: OutputId,
                | t.shows_on(s.acts.list[i].id, o, id)
            &&& forall|a: ActivityId, o: OutputId, x: WorkspaceId| #[trigger]
                s.shows_on(a, o, x) ==> t.shows_on(a, o, x)
        }),
    decreases n,
{
    if n > 0 {
        lemma_seat_acts(s, id, n - 1);
        let t = s.seat_acts(id, n - 1);
        let act = s.acts.list[n - 1].id;
        lemma_act_pos(s.acts, n - 1);
        lemma_same_ids(s.acts, t.acts);
        assert(t.acts.has(act));
        lemma_seat(t, act, id);
        let u = s.seat_acts(id, n);
        assert forall|i: int| 0 <= i < n && s.pool.member(
            id,
            (#[trigger] s.acts.list[i]).id,
        ) implies exists|o: OutputId| u.shows_on(s.acts.list[i].id, o, id) by {
            if i < n - 1 {
                let o = choose|o: OutputId| t.shows_on(s.acts.list[i].id, o, id);
                assert(u.shows_on(s.acts.list[i].id, o, id));
            }
        }
        assert forall|a: ActivityId, o: OutputId, x: WorkspaceId| #[trigger] s.shows_on(
            a,
            o,
            x,
        ) implies u.shows_on(a, o, x) by {
            assert(t.shows_on(a, o, x));
        }
    }
}

/// Workspaces are shown by all their activities once each was shown.
pub proof fn lemma_seat_all(s: LayoutModel, ids: Seq<WorkspaceId>)
    requires
        s.laid_out(),
        s.complete(),
    ensures
        ({
            let t = s.seat_all(ids);
            &&& t.laid_out()
            &&& t.complete()
            &&& t.pool == s.pool
            &&& t.acts.ids() == s.acts.ids()
            &&& t.monitors == s.monitors
            &&& forall|x: WorkspaceId, a: ActivityId| #[trigger]
                s.pool.member(x, a) && ids.contains(x) ==> exists|o: OutputId| t.shows_on(a, o, x)
            &&& forall|a: ActivityId, o: OutputId, x: WorkspaceId| #[trigger]
                s.shows_on(a, o, x) ==> t.shows_on(a, o, x)
        }),
    decreases ids.len(),
{
    if ids.len() > 0 {
        let rest = ids.drop_last();
        let id = ids.last();
        lemma_seat_all(s, rest);
        let t = s.seat_all(rest);
        let n = s.acts.list.len() as int;
        assert(t.acts.list.len() == t.acts.ids().len());
        assert(s.acts.list.len() == s.acts.ids().len());
        lemma_seat_acts(t, id, n);
        let u = s.seat_all(ids);
        assert forall|x: WorkspaceId, a: ActivityId| #[trigger] s.pool.member(x, a) && ids.contains(
            x,
        ) implies exists|o: OutputId| u.shows_on(a, o, x) by {
            if x == id {
                lemma_member_has(t, x, a);
                lemma_act(t.acts, a);
                let i = t.acts.pos(a).unwrap();
                assert(t.acts.list[i].id == a);
                assert(exists|o: OutputId| u.shows_on(t.acts.list[i].id, o, id));
            } else {
                let k = choose|k: int| 0 <= k < ids.len() && ids[k] == x;
                assert(rest[k] == x);
                assert(rest.contains(x));
                let o = choose|o: OutputId| t.shows_on(a, o, x);
                assert(u.shows_on(a, o, x));
            }
        }
        assert forall|a: ActivityId, o: OutputId, x: WorkspaceId| #[trigger] s.shows_on(
            a,
            o,
            x,
        ) implies u.shows_on(a, o, x) by {
            assert(t.shows_on(a, o, x));
        }
    }
}

/// `t` shows what `s` does, on the same outputs, and what is new in it is shown.
pub open spec fn extends(s: LayoutModel, t: LayoutModel) -> bool {
    &&& forall|a: ActivityId, o: OutputId| #[trigger]
        t.view_of(a, o) is Some <==> s.view_of(a, o) is Some
    &&& forall|a: ActivityId, o: OutputId, x: WorkspaceId| #[trigger]
        s.shows_on(a, o, x) ==> t.shows_on(a, o, x)
    &&& forall|x: WorkspaceId, a: ActivityId| #[trigger]
        t.pool.member(x, a) ==> s.pool.member(x, a) || exists|o: OutputId| t.shows_on(a, o, x)
}

/// Extending twice is extending.
pub proof fn lemma_extends_trans(s: LayoutModel, t: LayoutModel, u: LayoutModel)
    requires
        extends(s, t),
        extends(t, u),
    ensures
        extends(s, u),
{
    assert forall|a: ActivityId, o: OutputId| #[trigger] u.view_of(a, o) is Some <==> s.view_of(
        a,
        o,
    ) is Some by {
        assert(u.view_of(a, o) is Some <==> t.view_of(a, o) is Some);
    }
    assert forall|a: ActivityId, o: OutputId, x: WorkspaceId| #[trigger] s.shows_on(
        a,
        o,
        x,
    ) implies u.shows_on(a, o, x) by {
        assert(t.shows_on(a, o, x));
    }
    assert forall|x: WorkspaceId, a: ActivityId| #[trigger] u.pool.member(x, a) implies s.pool.member(
        x,
        a,
    ) || exists|o: OutputId| u.shows_on(a, o, x) by {
        if t.pool.member(x, a) && !s.pool.member(x, a) {
            let o = choose|o: OutputId| t.shows_on(a, o, x);
            assert(u.shows_on(a, o, x));
        }
    }
}

/// A new empty workspace in a view extends the layout.
pub proof fn lemma_mint_into_extends(s: LayoutModel, mon: int, act: ActivityId, pos: int)
    requires
        s.coherent(),
        0 <= mon < s.monitors.len(),
        s.mint_into(mon, act, pos).fits(),
        match s.view_of(act, s.monitors[mon].output.id) {
            Some(v) => 0 <= pos <= v.ids.len(),
            None => true,
        },
    ensures
        extends(s, s.mint_into(mon, act, pos)),
{
    let t = s.mint_into(mon, act, pos);
    let out = s.monitors[mon].output.id;
    if let Some(v) = s.view_of(act, out) {
        let id = s.pool.next_id();
        let w = v.insert(pos, id);
        crate::transfer::lemma_view_after_set(s.acts, act, out, w);
        assert forall|a: ActivityId, o: OutputId| #[trigger] t.view_of(a, o) == if a == act && o
            == out {
            Some(w)
        } else {
            s.view_of(a, o)
        } by {
            if a != act || o != out {
                crate::transfer::lemma_view_after_set_other(s.acts, act, out, w, a, o);
            }
        }
        assert forall|a: ActivityId, o: OutputId, x: WorkspaceId| #[trigger] s.shows_on(
            a,
            o,
            x,
        ) implies t.shows_on(a, o, x) by {
            crate::disconnecting::lemma_insert_contains(v.ids, pos, id, x);
        }
        crate::disconnecting::lemma_insert_contains(v.ids, pos, id, id);
        assert(t.shows_on(act, out, id));
        let f = WorkspaceModel::fresh(id, out, act);
        crate::coherence::lemma_push(s.pool, f);
        assert forall|x: WorkspaceId, a: ActivityId| #[trigger] t.pool.member(
            x,
            a,
        ) implies s.pool.member(x, a) || exists|o: OutputId| t.shows_on(a, o, x) by {
            if x == id {
                assert(f.activities == seq![act]);
            }
        }
    }
}

/// Putting in missing bookends extends the layout.
pub proof fn lemma_normalize_acts_extends(s: LayoutModel, mon: int, n: int)
    requires
        s.coherent(),
        0 <= mon < s.monitors.len(),
        s.normalize_acts(mon, n).fits(),
    ensures
        extends(s, s.normalize_acts(mon, n)),
    decreases n,
{
    if n > 0 {
        let t = s.normalize_acts(mon, n - 1);
        let act = s.acts.list[n - 1].id;
        crate::bookends::lemma_normalize_acts_leads(s, mon, n - 1, n - 1);
        crate::bookends::lemma_normalize_view_leads(t, mon, act);
        lemma_normalize_acts_extends(s, mon, n - 1);
        crate::keeping::lemma_normalize_acts(s, mon, n - 1);
        let u = s.normalize_acts(mon, n);
        if let Some(v) = t.view_of(act, t.monitors[mon].output.id) {
            let k = v.ids.len() as int;
            let lower = if t.pool.busy(v.ids.last()) {
                t.mint_into(mon, act, k)
            } else {
                t
            };
            crate::bookends::lemma_mint_into_leads(t, mon, act, k);
            crate::bookends::lemma_mint_into_leads(lower, mon, act, 0);
            if k > 0 {
                assert(lower.before(u));
                if t.pool.busy(v.ids.last()) {
                    lemma_mint_into_extends(t, mon, act, k);
                    crate::keeping::lemma_mint_into(t, mon, act, k);
                }
                assert(extends(t, lower));
                if u != lower {
                    lemma_mint_into_extends(lower, mon, act, 0);
                    lemma_extends_trans(t, lower, u);
                }
            }
        }
        lemma_extends_trans(s, t, u);
    }
}

/// Putting in missing bookends extends the layout.
pub proof fn lemma_normalize_extends(s: LayoutModel, n: int)
    requires
        s.coherent(),
        n <= s.monitors.len(),
        s.normalize_mons(n).fits(),
    ensures
        extends(s, s.normalize_mons(n)),
    decreases n,
{
    if n > 0 {
        let t = s.normalize_mons(n - 1);
        let k = s.acts.list.len() as int;
        crate::bookends::lemma_normalize_mons_leads(s, n - 1, n - 1);
        crate::bookends::lemma_normalize_acts_leads(t, n - 1, k, k);
        lemma_normalize_extends(s, n - 1);
        crate::keeping::lemma_normalize_mons(s, n - 1);
        lemma_normalize_acts_extends(t, n - 1, k);
        lemma_extends_trans(s, t, s.normalize_mons(n));
    }
}

/// A new workspace lists its activity once.
pub proof fn lemma_mint_lists(p: PoolModel, out: OutputId, act: ActivityId)
    requires
        lists_once(p),
    ensures
        lists_once(p.mint(out, act)),
{
    let q = p.mint(out, act);
    assert forall|i: int| 0 <= i < q.items.len() implies (
    #[trigger] q.items[i]).activities.no_duplicates() by {
        if i < p.items.len() {
            assert(q.items[i] == p.items[i]);
        }
    }
}

/// Empty views add no workspace that lists an activity twice.
pub proof fn lemma_bare_row_lists(s: LayoutModel, act: ActivityId, n: int)
    requires
        lists_once(s.pool),
    ensures
        lists_once(s.bare_row(act, n).pool),
    decreases n,
{
    if n > 0 {
        lemma_bare_row_lists(s, act, n - 1);
        let t = s.bare_row(act, n - 1);
        lemma_mint_lists(t.pool, t.monitors[n - 1].output.id, act);
    }
}

/// Empty views add no workspace that lists an activity twice.
pub proof fn lemma_bare_rows_lists(s: LayoutModel, n: int)
    requires
        lists_once(s.pool),
    ensures
        lists_once(s.bare_rows(n).pool),
    decreases n,
{
    if n > 0 {
        lemma_bare_rows_lists(s, n - 1);
        lemma_bare_row_lists(s.bare_rows(n - 1), s.acts.list[n - 1].id, s.monitors.len() as int);
    }
}

/// Bookends list their activity once.
pub proof fn lemma_normalize_acts_lists(s: LayoutModel, mon: int, n: int)
    requires
        lists_once(s.pool),
    ensures
        lists_once(s.normalize_acts(mon, n).pool),
    decreases n,
{
    if n > 0 {
        lemma_normalize_acts_lists(s, mon, n - 1);
        let t = s.normalize_acts(mon, n - 1);
        let act = s.acts.list[n - 1].id;
        let out = t.monitors[mon].output.id;
        lemma_mint_lists(t.pool, out, act);
        if let Some(v) = t.view_of(act, out) {
            let k = v.ids.len() as int;
            let u = t.mint_into(mon, act, k);
            lemma_mint_lists(u.pool, u.monitors[mon].output.id, act);
        }
    }
}

/// Bookends list their activity once.
pub proof fn lemma_normalize_lists(s: LayoutModel, n: int)
    requires
        lists_once(s.pool),
    ensures
        lists_once(s.normalize_mons(n).pool),
    decreases n,
{
    if n > 0 {
        lemma_normalize_lists(s, n - 1);
        lemma_normalize_acts_lists(s.normalize_mons(n - 1), n - 1, s.acts.list.len() as int);
    }
}

/// A layout in which every activity shows what it has becomes whole once it has its bookends.
pub proof fn lemma_normalize_whole(s: LayoutModel)
    requires
        s.laid_out(),
        s.complete(),
        s.all_seen(),
        s.outputs_apart(),
        lists_once(s.pool),
        previous_ok(s.acts),
        s.pointed(),
        s.normalize().fits(),
    ensures
        s.normalize().whole(),
{
    lemma_normalize_lists(s, s.monitors.len() as int);
    let t = s.normalize();
    let n = s.monitors.len() as int;
    crate::bookends::lemma_normalize_leads(s);
    crate::keeping::law_normalize_adds_only(s);
    crate::promises::law_normalize_settles(s);
    crate::belonging::lemma_normalize_mons_once(s, n);
    lemma_normalize_extends(s, n);
    lemma_same_ids(s.acts, t.acts);
    assert(t.outputs_apart()) by {
        assert forall|i: int| 0 <= i < t.monitors.len() implies (
        #[trigger] t.monitors[i]).output.id.0 != 0 by {
            assert(s.monitors[i].output == t.monitors[i].output);
        }
        assert forall|i: int, j: int| 0 <= i < j < t.monitors.len() implies apart(
            (#[trigger] t.monitors[i]).output,
            (#[trigger] t.monitors[j]).output,
        ) by {
            assert(apart(s.monitors[i].output, s.monitors[j].output));
        }
    }
    assert forall|a: ActivityId, o: OutputId| #[trigger] t.view_of(a, o) is Some implies t.monitor_pos(
        o,
    ) is Some by {
        assert(s.view_of(a, o) is Some);
        lemma_same_monitor(s, t, o);
    }
    assert(t.acts.list.len() == t.acts.ids().len());
    assert(s.acts.list.len() == s.acts.ids().len());
    assert forall|i: int, m: int|
        0 <= i < t.acts.list.len() && 0 <= m < t.monitors.len() implies t.view_of(
        (#[trigger] t.acts.list[i]).id,
        (#[trigger] t.monitors[m]).output.id,
    ) is Some by {
        assert(t.acts.ids()[i] == t.acts.list[i].id);
        assert(s.acts.ids()[i] == s.acts.list[i].id);
        assert(s.monitors[m].output == t.monitors[m].output);
        assert(s.view_of(s.acts.list[i].id, s.monitors[m].output.id) is Some);
    }
    assert forall|x: WorkspaceId, a: ActivityId| #[trigger] t.pool.member(x, a) implies exists|
        b: OutputId,
    | t.shows_on(a, b, x) by {
        if s.pool.member(x, a) {
            let b = choose|b: OutputId| s.shows_on(a, b, x);
            assert(t.shows_on(a, b, x));
        }
    }
}

/// The same outputs are connected as long as the monitors are of the same outputs.
pub proof fn lemma_same_monitor(s: LayoutModel, t: LayoutModel, o: OutputId)
    requires
        s.monitors.len() == t.monitors.len(),
        forall|i: int|
            0 <= i < s.monitors.len() ==> (#[trigger] s.monitors[i]).output
                == t.monitors[i].output,
    ensures
        t.monitor_pos(o) == s.monitor_pos(o),
{
    assert forall|i: int| 0 <= i < s.monitors.len() implies on_output(o)(
        #[trigger] s.monitors[i],
    ) == on_output(o)(t.monitors[i]) by {}
    crate::search::lemma_find_map(s.monitors, t.monitors, on_output(o), on_output(o));
}

/// What is shown by everyone it belongs to is in the pool of a peopled layout, and nothing else.
pub proof fn lemma_peopled(s: LayoutModel)
    requires
        s.staffed(),
        s.monitors.len() > 0,
        lists_once(s.pool),
        s.peopled().fits(),
    ensures
        lists_once(s.peopled().pool),
        s.peopled().laid_out(),
        s.peopled().complete(),
        s.peopled().all_seen(),
        s.peopled().monitors == s.covered().monitors,
{
    crate::mending::lemma_arranged_leads(s);
    let c = s.covered();
    let d = c.discard();
    let ids = crate::materialize::ids_of(d.pool.items);
    let t = s.peopled();
    crate::mending::lemma_seat_all_leads(d, ids);
    assert(c.fits());
    lemma_covered(s);
    lemma_bare_rows_lists(s.untangle(), s.untangle().acts.list.len() as int);
    lemma_discard(c);
    lemma_seat_all(d, ids);
    assert forall|x: WorkspaceId, a: ActivityId| #[trigger] t.pool.member(x, a) implies exists|
        b: OutputId,
    | t.shows_on(a, b, x) by {
        assert(d.pool.member(x, a));
        lemma_get(d.pool, x);
        let k = d.pool.pos(x).unwrap();
        assert(ids[k] == x);
        assert(ids.contains(x));
    }
}

/// Without an output everything that is needed waits, and nothing else is there.
pub proof fn lemma_stow(s: LayoutModel)
    requires
        s.staffed(),
        s.monitors.len() == 0,
        lists_once(s.pool),
        previous_ok(s.acts),
        s.pointed(),
    ensures
        s.stow().whole(),
        forall|x: WorkspaceId| #[trigger]
            s.stow().pool.get(x) == if s.pool.busy(x) {
                s.pool.get(x)
            } else {
                None
            },
{
    let t = s.stow();
    let f = in_use();
    lemma_picked(s.pool, f);
    assert(t.pool == picked(s.pool, f));
    assert forall|x: WorkspaceId| #[trigger] t.pool.get(x) == if s.pool.busy(x) {
        s.pool.get(x)
    } else {
        None
    } by {
        lemma_get(s.pool, x);
    }
    assert(t.acts.ids() =~= s.acts.ids());
    lemma_same_ids(s.acts, t.acts);
    assert forall|i: int| 0 <= i < t.acts.list.len() implies (#[trigger] t.acts.list[i]).id
        == s.acts.list[i].id by {}
    assert(acts_ok(t.acts)) by {
        assert forall|i: int, j: int| 0 <= i < j < t.acts.list.len() implies (
        #[trigger] t.acts.list[i]).id != (#[trigger] t.acts.list[j]).id by {
            assert(s.acts.list[i].id != s.acts.list[j].id);
        }
        assert forall|i: int| 0 <= i < t.acts.list.len() implies (#[trigger] t.acts.list[i]).id.0
            < t.acts.next by {
            assert(s.acts.list[i].id.0 < s.acts.next);
        }
    }
    assert forall|i: int| 0 <= i < t.pool.items.len() implies member_ok(
        t.acts,
        #[trigger] t.pool.items[i],
    ) by {
        let k = choose|k: int| 0 <= k < s.pool.items.len() && s.pool.items[k] == t.pool.items[i];
        assert(member_ok(s.acts, s.pool.items[k]));
    }
    assert(lists_once(t.pool)) by {
        assert forall|i: int| 0 <= i < t.pool.items.len() implies (
        #[trigger] t.pool.items[i]).activities.no_duplicates() by {
            assert(s.pool.items.contains(t.pool.items[i]));
            let k = choose|k: int|
                0 <= k < s.pool.items.len() && s.pool.items[k] == t.pool.items[i];
            assert(s.pool.items[k].activities.no_duplicates());
        }
    }
    let keep = s.parked.filter(worth_keeping(s.pool));
    let kept = firsts(keep);
    lemma_filter(s.parked, worth_keeping(s.pool));
    lemma_firsts(keep);
    let g = in_use_beside(kept);
    let n = s.pool.items.len() as int;
    assert(s.pool.items.take(n) =~= s.pool.items);
    lemma_ids_of_filter(s.pool, g, n);
    let rest = ids_of(s.pool.items.filter(g));
    assert(t.parked == kept + rest);
    assert forall|x: WorkspaceId| #[trigger] rest.contains(x) <==> s.pool.busy(x) && !kept.contains(
        x,
    ) by {
        lemma_get(s.pool, x);
        if rest.contains(x) {
            let i = choose|i: int|
                0 <= i < n && g(#[trigger] s.pool.items[i]) && s.pool.items[i].id == x;
            lemma_pos_of(s.pool, i);
        }
        if s.pool.busy(x) && !kept.contains(x) {
            let k = s.pool.pos(x).unwrap();
            assert(g(s.pool.items[k]));
        }
    }
    assert forall|x: WorkspaceId| #[trigger] t.parked.contains(x) <==> s.pool.busy(x) by {
        if t.parked.contains(x) {
            let k = choose|k: int| 0 <= k < t.parked.len() && t.parked[k] == x;
            if k < kept.len() {
                assert(kept[k] == x);
                assert(kept.contains(x));
                assert(keep.contains(x));
            } else {
                assert(rest[k - kept.len()] == x);
                assert(rest.contains(x));
            }
        }
        if s.pool.busy(x) {
            if kept.contains(x) {
                let k = choose|k: int| 0 <= k < kept.len() && kept[k] == x;
                assert(t.parked[k] == x);
            } else {
                assert(rest.contains(x));
                let k = choose|k: int| 0 <= k < rest.len() && rest[k] == x;
                assert(t.parked[kept.len() + k] == x);
            }
        }
    }
    assert(t.parked.no_duplicates()) by {
        assert forall|i: int, j: int|
            0 <= i < t.parked.len() && 0 <= j < t.parked.len() && i != j implies t.parked[i]
            != t.parked[j] by {
            if i < kept.len() && j >= kept.len() {
                assert(kept.contains(t.parked[i]));
                assert(rest[j - kept.len()] == t.parked[j]);
                assert(rest.contains(t.parked[j]));
            } else if j < kept.len() && i >= kept.len() {
                assert(kept.contains(t.parked[j]));
                assert(rest[i - kept.len()] == t.parked[i]);
                assert(rest.contains(t.parked[i]));
            } else if i < kept.len() {
                assert(kept[i] != kept[j]);
            } else {
                assert(rest[i - kept.len()] != rest[j - kept.len()]);
            }
        }
    }
    assert forall|i: int| 0 <= i < t.parked.len() implies t.pool.busy(#[trigger] t.parked[i])
        && t.pool.has(t.parked[i]) by {
        assert(t.parked.contains(t.parked[i]));
        lemma_get(t.pool, t.parked[i]);
        assert(t.pool.get(t.parked[i]) == s.pool.get(t.parked[i]));
    }
    assert forall|x: WorkspaceId| #[trigger] t.pool.has(x) implies t.parked.contains(x) by {
        lemma_get(t.pool, x);
        assert(t.pool.get(x) is Some);
    }
    assert forall|a: ActivityId, o: OutputId| #[trigger] t.view_of(a, o) is None by {
        if t.view_of(a, o) is Some {
            let (i, j) = lemma_view_entry(t, a, o);
            assert(t.acts.list[i].views.len() == 0);
        }
    }
    assert forall|c: ActivityId, o1: OutputId, o2: OutputId, x: WorkspaceId|
        o1 != o2 && #[trigger] t.shows_on(c, o1, x) implies !(#[trigger] t.shows_on(c, o2, x)) by {
        assert(t.view_of(c, o1) is None);
    }
}

/// Arranging makes a layout whole.
pub proof fn lemma_arranged(s: LayoutModel)
    requires
        s.staffed(),
        s.outputs_apart(),
        lists_once(s.pool),
        previous_ok(s.acts),
        s.pointed(),
        s.arranged().fits(),
    ensures
        s.arranged().whole(),
{
    if s.monitors.len() == 0 {
        lemma_stow(s);
    } else {
        crate::mending::lemma_arranged_leads(s);
        let t = s.peopled();
        assert(t.fits());
        lemma_peopled(s);
        assert(s.unparked().leads_to(t)) by {
            let d = s.covered().discard();
            crate::mending::lemma_untangle_leads(s);
            crate::mending::lemma_seat_all_leads(d, ids_of(d.pool.items));
        }
        assert(t.outputs_apart()) by {
            assert forall|i: int| 0 <= i < t.monitors.len() implies (
            #[trigger] t.monitors[i]).output.id.0 != 0 by {
                assert(s.monitors[i].output == t.monitors[i].output);
            }
            assert forall|i: int, j: int| 0 <= i < j < t.monitors.len() implies apart(
                (#[trigger] t.monitors[i]).output,
                (#[trigger] t.monitors[j]).output,
            ) by {
                assert(apart(s.monitors[i].output, s.monitors[j].output));
            }
        }
        lemma_same_ids(s.acts, t.acts);
        lemma_normalize_whole(t);
    }
}

/// The first occurrences of activities.
pub proof fn lemma_distinct_once(s: Seq<ActivityId>)
    ensures
        distinct(s).no_duplicates(),
        s.no_duplicates() ==> distinct(s) == s,
        s.len() > 0 ==> distinct(s).len() > 0,
    decreases s.len(),
{
    if s.len() > 0 {
        let rest = s.drop_last();
        lemma_distinct_once(rest);
        crate::belonging::lemma_distinct(rest);
        if s.no_duplicates() {
            assert(rest.no_duplicates());
            assert(!rest.contains(s.last()));
            assert(rest.push(s.last()) =~= s);
        }
    }
}

/// Straightening puts pool and activities fully in order.
pub proof fn lemma_straightened(s: LayoutModel)
    requires
        s.staffed(),
    ensures
        s.straightened().staffed(),
        lists_once(s.straightened().pool),
        previous_ok(s.straightened().acts),
        s.straightened().pointed(),
        forall|x: WorkspaceId, a: ActivityId| #[trigger]
            s.straightened().pool.member(x, a) == s.pool.member(x, a),
        forall|x: WorkspaceId| #[trigger] s.straightened().pool.pos(x) == s.pool.pos(x),
{
    let t = s.straightened();
    assert forall|i: int| 0 <= i < t.pool.items.len() implies member_ok(
        t.acts,
        #[trigger] t.pool.items[i],
    ) && t.pool.items[i].activities.no_duplicates() by {
        let w = s.pool.items[i];
        assert(member_ok(s.acts, w));
        lemma_distinct_once(w.activities);
        crate::belonging::lemma_distinct(w.activities);
        assert forall|x: ActivityId| #[trigger] t.pool.items[i].activities.contains(
            x,
        ) implies t.acts.has(x) by {
            assert(w.activities.contains(x));
        }
    }
    assert forall|x: WorkspaceId| #[trigger] t.pool.pos(x) == s.pool.pos(x) by {
        crate::search::lemma_find_map(
            t.pool.items,
            s.pool.items,
            crate::pool::has_id(x),
            crate::pool::has_id(x),
        );
    }
    assert forall|x: WorkspaceId, a: ActivityId| #[trigger] t.pool.member(x, a) == s.pool.member(
        x,
        a,
    ) by {
        assert(t.pool.pos(x) == s.pool.pos(x));
        lemma_get(s.pool, x);
        if let Some(k) = s.pool.pos(x) {
            crate::belonging::lemma_distinct(s.pool.items[k].activities);
        }
    }
}

/// Mending makes a layout whole in which pool and activities are in order, whatever its views show.
pub proof fn law_mending_makes_whole(s: LayoutModel)
    requires
        s.staffed(),
        s.outputs_apart(),
        s.mended().fits(),
    ensures
        s.mended().whole(),
{
    lemma_straightened(s);
    lemma_arranged(s.straightened());
}

/// Entries of connected outputs that show nothing twice stay as they are.
pub proof fn lemma_untangled_idle(
    pool: PoolModel,
    monitors: Seq<Monitor>,
    act: ActivityId,
    entries: Seq<EntryModel>,
)
    requires
        entries_apart(entries),
        forall|j: int|
            0 <= j < entries.len() ==> view_ok(pool, act, (#[trigger] entries[j]).view) && find(
                monitors,
                on_output(entries[j].output),
            ) is Some,
    ensures
        untangled(pool, monitors, act, entries) == entries,
    decreases entries.len(),
{
    if entries.len() > 0 {
        let rest = entries.drop_last();
        let e = entries.last();
        let n = rest.len() as int;
        assert forall|i: int, j: int| 0 <= i < j < rest.len() implies (#[trigger] rest[i]).output
            != (#[trigger] rest[j]).output && forall|x: WorkspaceId|
            !(#[trigger] rest[i].view.ids.contains(x) && rest[j].view.ids.contains(x)) by {
            assert(entries[i].output != entries[j].output);
        }
        assert forall|j: int| 0 <= j < rest.len() implies view_ok(
            pool,
            act,
            (#[trigger] rest[j]).view,
        ) && find(monitors, on_output(rest[j].output)) is Some by {
            assert(view_ok(pool, act, entries[j].view));
        }
        lemma_untangled_idle(pool, monitors, act, rest);
        assert(entries[n] == e);
        assert(view_ok(pool, act, entries[n].view));
        assert(!covers(rest, e.output)) by {
            if covers(rest, e.output) {
                let j = choose|j: int| 0 <= j < rest.len() && (#[trigger] rest[j]).output == e.output;
                assert(entries[j].output != entries[n].output);
            }
        }
        let p = new_to(pool, act, rest);
        assert forall|i: int| 0 <= i < e.view.ids.len() implies #[trigger] p(e.view.ids[i]) by {
            let x = e.view.ids[i];
            assert(e.view.ids.contains(x));
            if shown_among(rest, x) {
                let j = choose|j: int|
                    0 <= j < rest.len() && (#[trigger] rest[j]).view.ids.contains(x);
                assert(entries[j].output != entries[n].output);
                assert(entries[j].view.ids.contains(x));
            }
        }
        lemma_filter_all(e.view.ids, p);
        lemma_firsts_same(e.view.ids);
        assert(cut(e.view, e.view.ids) == e.view);
        assert(entries =~= rest.push(e));
    }
}

/// What is picked from a pool by a test that all pass is all of it.
pub proof fn lemma_items_filter_all(s: Seq<WorkspaceModel>, p: spec_fn(WorkspaceModel) -> bool)
    requires
        forall|i: int| 0 <= i < s.len() ==> #[trigger] p(s[i]),
    ensures
        s.filter(p) == s,
    decreases s.len(),
{
    reveal(Seq::filter);
    if s.len() > 0 {
        let rest = s.drop_last();
        assert forall|i: int| 0 <= i < rest.len() implies #[trigger] p(rest[i]) by {
            assert(p(s[i]));
        }
        lemma_items_filter_all(rest, p);
        assert(p(s[s.len() - 1]));
        assert(s =~= rest.push(s.last()));
    }
}

/// Nothing is picked from a pool by a test that none passes.
pub proof fn lemma_items_filter_none(s: Seq<WorkspaceModel>, p: spec_fn(WorkspaceModel) -> bool)
    requires
        forall|i: int| 0 <= i < s.len() ==> !(#[trigger] p(s[i])),
    ensures
        s.filter(p).len() == 0,
    decreases s.len(),
{
    reveal(Seq::filter);
    if s.len() > 0 {
        let rest = s.drop_last();
        assert forall|i: int| 0 <= i < rest.len() implies !(#[trigger] p(rest[i])) by {
            assert(!p(s[i]));
        }
        lemma_items_filter_none(rest, p);
        assert(!p(s[s.len() - 1]));
    }
}

/// Where every activity has all its views, no empty view is opened.
pub proof fn lemma_bare_rows_idle(s: LayoutModel, n: int)
    requires
        s.complete(),
        n <= s.acts.list.len(),
    ensures
        s.bare_rows(n) == s,
    decreases n,
{
    if n > 0 {
        lemma_bare_rows_idle(s, n - 1);
        lemma_bare_row_idle(s, n - 1, s.monitors.len() as int);
    }
}

/// Where an activity has all its views, no empty view is opened for it.
pub proof fn lemma_bare_row_idle(s: LayoutModel, i: int, n: int)
    requires
        s.complete(),
        0 <= i < s.acts.list.len(),
        n <= s.monitors.len(),
    ensures
        s.bare_row(s.acts.list[i].id, n) == s,
    decreases n,
{
    if n > 0 {
        lemma_bare_row_idle(s, i, n - 1);
        assert(s.view_of(s.acts.list[i].id, s.monitors[n - 1].output.id) is Some);
    }
}

/// Where everything is shown, nothing is shown anew.
pub proof fn lemma_seat_acts_idle(s: LayoutModel, id: WorkspaceId, n: int)
    requires
        s.coherent(),
        s.all_seen(),
    ensures
        s.seat_acts(id, n) == s,
    decreases n,
{
    if n > 0 {
        lemma_seat_acts_idle(s, id, n - 1);
        let act = s.acts.list[n - 1].id;
        if s.pool.member(id, act) {
            let o = choose|o: OutputId| s.shows_on(act, o, id);
            lemma_is_shown(s, act, o, id);
        }
    }
}

/// Where everything is shown, nothing is shown anew.
pub proof fn lemma_seat_all_idle(s: LayoutModel, ids: Seq<WorkspaceId>)
    requires
        s.coherent(),
        s.all_seen(),
    ensures
        s.seat_all(ids) == s,
    decreases ids.len(),
{
    if ids.len() > 0 {
        lemma_seat_all_idle(s, ids.drop_last());
        lemma_seat_acts_idle(s, ids.last(), s.acts.list.len() as int);
    }
}

/// Mending changes nothing in a layout that is whole.
pub proof fn law_mending_is_idle(s: LayoutModel)
    requires
        s.whole(),
    ensures
        s.mended() == s,
{
    assert(s.straightened() == s) by {
        assert forall|i: int| 0 <= i < s.pool.items.len() implies #[trigger] s.straightened().pool.items[i]
            == s.pool.items[i] by {
            assert(s.pool.items[i].activities.no_duplicates());
            lemma_distinct_once(s.pool.items[i].activities);
        }
        assert(s.straightened().pool.items =~= s.pool.items);
    }
    if s.monitors.len() == 0 {
        let t = s.stow();
        assert forall|i: int| 0 <= i < s.acts.list.len() implies #[trigger] t.acts.list[i]
            == s.acts.list[i] by {
            let a = s.acts.list[i];
            if a.views.len() > 0 {
                lemma_entry_is_view(s, i, 0);
                let o = a.views[0].output;
                assert(s.view_of(a.id, o) is Some);
                lemma_find_from(s.monitors, on_output(o), 0);
                assert(s.monitor_pos(o) is Some);
            }
            assert(a.views =~= Seq::empty());
        }
        assert(t.acts.list =~= s.acts.list);
        let w = worth_keeping(s.pool);
        assert forall|i: int| 0 <= i < s.parked.len() implies #[trigger] w(s.parked[i]) by {}
        lemma_filter_all(s.parked, w);
        lemma_firsts_same(s.parked);
        assert forall|i: int| 0 <= i < s.pool.items.len() implies (#[trigger] s.pool.items[i]).busy()
            && s.parked.contains(s.pool.items[i].id) by {
            lemma_pos_of(s.pool, i);
            let x = s.pool.items[i].id;
            assert(s.pool.has(x));
            let k = choose|k: int| 0 <= k < s.parked.len() && s.parked[k] == x;
            assert(s.pool.busy(s.parked[k]));
        }
        lemma_items_filter_all(s.pool.items, in_use());
        lemma_items_filter_none(s.pool.items, in_use_beside(s.parked));
        assert(t.parked =~= s.parked);
    } else {
        let u = s.untangle();
        assert forall|i: int| 0 <= i < s.acts.list.len() implies #[trigger] u.acts.list[i]
            == s.acts.list[i] by {
            let a = s.acts.list[i];
            assert(activity_ok(s.pool, a));
            assert forall|j: int| 0 <= j < a.views.len() implies view_ok(
                s.pool,
                a.id,
                (#[trigger] a.views[j]).view,
            ) && find(s.monitors, on_output(a.views[j].output)) is Some by {
                lemma_entry_is_view(s, i, j);
                assert(s.view_of(a.id, a.views[j].output) is Some);
                assert(s.monitor_pos(a.views[j].output) is Some);
                assert(view_ok(s.pool, a.id, a.views[j].view));
            }
            assert forall|j: int, k: int| 0 <= j < k < a.views.len() implies (
            #[trigger] a.views[j]).output != (#[trigger] a.views[k]).output && forall|
                x: WorkspaceId,
            |
                !(#[trigger] a.views[j].view.ids.contains(x) && a.views[k].view.ids.contains(x)) by {
                lemma_entry_is_view(s, i, j);
                lemma_entry_is_view(s, i, k);
                assert forall|x: WorkspaceId| #[trigger]
                    a.views[j].view.ids.contains(x) implies !a.views[k].view.ids.contains(x) by {
                    assert(s.shows_on(a.id, a.views[j].output, x));
                    if a.views[k].view.ids.contains(x) {
                        assert(s.shows_on(a.id, a.views[k].output, x));
                    }
                }
            }
            lemma_untangled_idle(s.pool, s.monitors, a.id, a.views);
        }
        assert(u.acts.list =~= s.acts.list);
        assert(u.parked =~= s.parked);
        assert(u == s);
        lemma_bare_rows_idle(s, s.acts.list.len() as int);
        let f = s.needed();
        assert forall|i: int| 0 <= i < s.pool.items.len() implies #[trigger] f(s.pool.items[i]) by {
            let w = s.pool.items[i];
            assert(member_ok(s.acts, w));
            lemma_pos_of(s.pool, i);
            lemma_get(s.pool, w.id);
            let a = w.activities[0];
            assert(w.activities.contains(a));
            assert(s.pool.member(w.id, a));
            let o = choose|o: OutputId| s.shows_on(a, o, w.id);
            lemma_is_shown(s, a, o, w.id);
        }
        lemma_items_filter_all(s.pool.items, f);
        assert(s.discard() == s);
        lemma_seat_all_idle(s, ids_of(s.pool.items));
        lemma_normalize_mons_idle(s, s.monitors.len() as int);
    }
}

/// The activities of a workspace are there.
pub proof fn lemma_member_has(s: LayoutModel, x: WorkspaceId, a: ActivityId)
    requires
        s.coherent(),
        s.pool.member(x, a),
    ensures
        s.acts.has(a),
{
    crate::coherence::lemma_get(s.pool, x);
    let w = s.pool.items[s.pool.pos(x).unwrap()];
    assert(crate::coherence::member_ok(s.acts, w));
    let j = choose|j: int| 0 <= j < w.activities.len() && w.activities[j] == a;
    assert(s.acts.has(w.activities[j]));
}

} // verus!
