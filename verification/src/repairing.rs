//! After a repair, nothing is shown or parked but what exists; where that was so, nothing changes.

use vstd::prelude::*;

use crate::activity::{keyed, ActivitiesModel, ActivityModel, EntryModel};
use crate::ids::{ActivityId, OutputId, WorkspaceId};
use crate::keeping::{keys_differ, lemma_rid, lemma_without, trimmed};
use crate::layout::LayoutModel;
use crate::pool::PoolModel;
use crate::reconcile::Stray;
use crate::reload::{shown, shown_in, shown_on};
use crate::search::{equal_to, lemma_find_from};
use crate::upkeep::{dangling, pooled};
use crate::view::ViewModel;

verus! {

/// The views of activity `a` are usable and of different outputs.
pub open spec fn entries_ok(a: ActivityModel) -> bool {
    keys_differ(a.views) && forall|j: int|
        0 <= j < a.views.len() ==> (#[trigger] a.views[j]).view.wf()
}

/// Whether activity `a` shows workspace `x` in any view.
pub open spec fn occurs(a: ActivityModel, x: WorkspaceId) -> bool {
    exists|j: int| 0 <= j < a.views.len() && (#[trigger] a.views[j]).view.ids.contains(x)
}

/// Taking a workspace out of an activity's views leaves the others.
pub proof fn lemma_drop_occurs(a: ActivityModel, id: WorkspaceId)
    requires
        entries_ok(a),
    ensures
        entries_ok(a.drop_workspace(id)),
        forall|x: WorkspaceId| #[trigger]
            occurs(a.drop_workspace(id), x) ==> x != id && occurs(a, x),
{
    let b = a.drop_workspace(id);
    lemma_without(a.views, id);
    assert forall|j: int| 0 <= j < b.views.len() implies (#[trigger] b.views[j]).view.wf() by {
        let i = choose|i: int| 0 <= i < a.views.len() && trimmed(a.views[i], id) == Some(b.views[j]);
        assert(a.views[i].view.wf());
        lemma_rid(a.views[i].view, id);
    }
    assert forall|x: WorkspaceId| #[trigger] occurs(b, x) implies x != id && occurs(a, x) by {
        let j = choose|j: int|
            0 <= j < b.views.len() && (#[trigger] b.views[j]).view.ids.contains(x);
        let i = choose|i: int| 0 <= i < a.views.len() && trimmed(a.views[i], id) == Some(b.views[j]);
        assert(a.views[i].view.wf());
        lemma_rid(a.views[i].view, id);
        assert(a.views[i].view.ids.contains(x));
    }
}

/// Taking workspaces out of all views leaves the others.
pub proof fn lemma_drop_each(s: ActivitiesModel, work: Seq<Stray>, i: int)
    requires
        0 <= i < s.list.len(),
        entries_ok(s.list[i]),
    ensures
        s.drop_each(work).list.len() == s.list.len(),
        entries_ok(s.drop_each(work).list[i]),
        forall|x: WorkspaceId| #[trigger]
            occurs(s.drop_each(work).list[i], x) ==> occurs(s.list[i], x) && forall|k: int|
                0 <= k < work.len() ==> (#[trigger] work[k]).id != x,
    decreases work.len(),
{
    if work.len() > 0 {
        let rest = work.drop_last();
        lemma_drop_each(s, rest, i);
        let t = s.drop_each(rest);
        let u = s.drop_each(work);
        lemma_drop_occurs(t.list[i], work.last().id);
        assert(u.list[i] == t.list[i].drop_workspace(work.last().id));
        assert forall|x: WorkspaceId| #[trigger] occurs(u.list[i], x) implies occurs(s.list[i], x)
            && forall|k: int| 0 <= k < work.len() ==> (#[trigger] work[k]).id != x by {
            assert(occurs(t.list[i], x));
            assert forall|k: int| 0 <= k < work.len() implies (#[trigger] work[k]).id != x by {
                if k < rest.len() {
                    assert(rest[k].id != x);
                }
            }
        }
    }
}

/// What an entry shows is among what its activity shows.
pub proof fn lemma_shown_in(act: ActivityId, entries: Seq<EntryModel>, j: int, n: int)
    requires
        0 <= j < entries.len(),
        0 <= n < entries[j].view.ids.len(),
    ensures
        shown_in(act, entries).contains(
            Stray { act, output: entries[j].output, id: entries[j].view.ids[n] },
        ),
    decreases entries.len(),
{
    let s = Stray { act, output: entries[j].output, id: entries[j].view.ids[n] };
    let rest = entries.drop_last();
    let all = shown_in(act, entries);
    let before = shown_in(act, rest);
    let here = shown_on(act, entries.last());
    assert(all == before + here);
    if j == entries.len() - 1 {
        assert(here[n] == s);
        assert(all[before.len() + n] == s);
    } else {
        assert(rest[j] == entries[j]);
        lemma_shown_in(act, rest, j, n);
        let k = choose|k: int| 0 <= k < before.len() && before[k] == s;
        assert(all[k] == s);
    }
}

/// What an activity shows is among what all show.
pub proof fn lemma_shown(list: Seq<ActivityModel>, i: int, s: Stray)
    requires
        0 <= i < list.len(),
        shown_in(list[i].id, list[i].views).contains(s),
    ensures
        shown(list).contains(s),
    decreases list.len(),
{
    let rest = list.drop_last();
    let all = shown(list);
    let before = shown(rest);
    let here = shown_in(list.last().id, list.last().views);
    assert(all == before + here);
    if i == list.len() - 1 {
        let k = choose|k: int| 0 <= k < here.len() && here[k] == s;
        assert(all[before.len() + k] == s);
    } else {
        assert(rest[i] == list[i]);
        lemma_shown(rest, i, s);
        let k = choose|k: int| 0 <= k < before.len() && before[k] == s;
        assert(all[k] == s);
    }
}

/// A filter of places picks what it says.
pub proof fn lemma_filter_strays(s: Seq<Stray>, p: spec_fn(Stray) -> bool)
    ensures
        forall|x: Stray| #[trigger] s.filter(p).contains(x) <==> (s.contains(x) && p(x)),
    decreases s.len(),
{
    reveal(Seq::filter);
    if s.len() > 0 {
        let rest = s.drop_last();
        lemma_filter_strays(rest, p);
        let f = rest.filter(p);
        let g = s.filter(p);
        assert forall|x: Stray| #[trigger] g.contains(x) <==> (s.contains(x) && p(x)) by {
            if g.contains(x) {
                let k = choose|k: int| 0 <= k < g.len() && g[k] == x;
                if k < f.len() {
                    assert(f[k] == x);
                    assert(f.contains(x));
                    let l = choose|l: int| 0 <= l < rest.len() && rest[l] == x;
                    assert(s[l] == x);
                } else {
                    assert(s[s.len() - 1] == x);
                }
            }
            if s.contains(x) && p(x) {
                let k = choose|k: int| 0 <= k < s.len() && s[k] == x;
                if k < rest.len() {
                    assert(rest[k] == x);
                    assert(rest.contains(x));
                    assert(f.contains(x));
                    let l = choose|l: int| 0 <= l < f.len() && f[l] == x;
                    assert(g[l] == x);
                } else {
                    assert(g[g.len() - 1] == x);
                }
            }
        }
    }
}

/// A repaired layout shows and parks only workspaces that exist.
pub proof fn law_repairing_leaves_no_zombies(s: LayoutModel)
    requires
        forall|i: int| 0 <= i < s.acts.list.len() ==> entries_ok(#[trigger] s.acts.list[i]),
    ensures
        s.repair().pool == s.pool,
        forall|i: int, x: WorkspaceId|
            0 <= i < s.acts.list.len() && #[trigger] occurs(s.repair().acts.list[i], x)
                ==> s.pool.has(x),
        forall|i: int|
            0 <= i < s.repair().parked.len() ==> s.pool.has(#[trigger] s.repair().parked[i]),
{
    let t = s.repair();
    let work = s.zombies();
    lemma_filter_strays(shown(s.acts.list), dangling(s.pool));
    assert forall|i: int, x: WorkspaceId|
        0 <= i < s.acts.list.len() && #[trigger] occurs(t.acts.list[i], x) implies s.pool.has(
        x,
    ) by {
        lemma_drop_each(s.acts, work, i);
        let a = s.acts.list[i];
        assert(occurs(a, x));
        let j = choose|j: int|
            0 <= j < a.views.len() && (#[trigger] a.views[j]).view.ids.contains(x);
        let ids = a.views[j].view.ids;
        let n = choose|n: int| 0 <= n < ids.len() && ids[n] == x;
        lemma_shown_in(a.id, a.views, j, n);
        let z = Stray { act: a.id, output: a.views[j].output, id: x };
        lemma_shown(s.acts.list, i, z);
        if !s.pool.has(x) {
            assert(work.contains(z));
            let k = choose|k: int| 0 <= k < work.len() && work[k] == z;
            assert(work[k].id != x);
        }
    }
    crate::keeping_views::lemma_filter(s.parked, pooled(s.pool));
    assert forall|i: int| 0 <= i < t.parked.len() implies s.pool.has(#[trigger] t.parked[i]) by {
        assert(t.parked.contains(t.parked[i]));
    }
}

/// What the activities show is what their views hold.
pub proof fn lemma_shown_exists(pool: PoolModel, list: Seq<ActivityModel>, z: Stray)
    requires
        forall|i: int, x: WorkspaceId|
            0 <= i < list.len() && #[trigger] occurs(list[i], x) ==> pool.has(x),
        shown(list).contains(z),
    ensures
        pool.has(z.id),
    decreases list.len(),
{
    let rest = list.drop_last();
    let all = shown(list);
    if list.len() > 0 {
        let before = shown(rest);
        let last = list.last();
        let here = shown_in(last.id, last.views);
        assert(all == before + here);
        let k = choose|k: int| 0 <= k < all.len() && all[k] == z;
        if k < before.len() {
            assert(before[k] == z);
            assert forall|i: int, x: WorkspaceId|
                0 <= i < rest.len() && #[trigger] occurs(rest[i], x) implies pool.has(x) by {
                assert(occurs(list[i], x));
            }
            lemma_shown_exists(pool, rest, z);
        } else {
            assert(here[k - before.len()] == z);
            lemma_shown_in_exists(last, last.views.len() as int, z);
            assert(last.views.take(last.views.len() as int) =~= last.views);
            assert(occurs(list[list.len() - 1], z.id));
        }
    }
}

/// What an activity shows is what its views hold.
pub proof fn lemma_shown_in_exists(a: ActivityModel, n: int, z: Stray)
    requires
        0 <= n <= a.views.len(),
    ensures
        shown_in(a.id, a.views.take(n)).contains(z) ==> occurs(a, z.id),
    decreases n,
{
    if n > 0 {
        lemma_shown_in_exists(a, n - 1, z);
        let entries = a.views.take(n);
        assert(entries.drop_last() =~= a.views.take(n - 1));
        let before = shown_in(a.id, a.views.take(n - 1));
        let e = a.views[n - 1];
        assert(entries.last() == e);
        let here = shown_on(a.id, e);
        let all = shown_in(a.id, entries);
        assert(all == before + here);
        if all.contains(z) {
            let k = choose|k: int| 0 <= k < all.len() && all[k] == z;
            if k < before.len() {
                assert(before[k] == z);
            } else {
                assert(here[k - before.len()] == z);
                assert(e.view.ids[k - before.len()] == z.id);
                assert(a.views[n - 1].view.ids.contains(z.id));
            }
        }
    } else {
        assert(a.views.take(n) =~= Seq::<EntryModel>::empty());
    }
}

impl LayoutModel {
    /// Nothing is shown or parked that does not exist.
    pub open spec fn no_zombies(self) -> bool {
        &&& forall|i: int, x: WorkspaceId|
            0 <= i < self.acts.list.len() && #[trigger] occurs(self.acts.list[i], x)
                ==> self.pool.has(x)
        &&& forall|i: int| 0 <= i < self.parked.len() ==> self.pool.has(#[trigger] self.parked[i])
    }
}

/// Where nothing is shown or parked that does not exist, a repair changes nothing.
pub proof fn law_repairing_is_idle(s: LayoutModel)
    requires
        s.no_zombies(),
    ensures
        s.repair() == s,
{
    let work = s.zombies();
    lemma_filter_strays(shown(s.acts.list), dangling(s.pool));
    assert(work.len() == 0) by {
        if work.len() > 0 {
            assert(work.contains(work[0]));
            lemma_shown_exists(s.pool, s.acts.list, work[0]);
        }
    }
    assert(work =~= Seq::<Stray>::empty());
    assert forall|i: int| 0 <= i < s.parked.len() implies #[trigger] pooled(s.pool)(
        s.parked[i],
    ) by {
        assert(s.pool.has(s.parked[i]));
    }
    crate::cores::lemma_filter_all(s.parked, pooled(s.pool));
}

/// Repairing a coherent layout changes nothing.
pub proof fn law_repairing_coherent_is_idle(s: LayoutModel)
    requires
        s.coherent(),
    ensures
        s.repair() == s,
{
    assert forall|i: int, x: WorkspaceId|
        0 <= i < s.acts.list.len() && #[trigger] occurs(s.acts.list[i], x) implies s.pool.has(
        x,
    ) by {
        let a = s.acts.list[i];
        assert(crate::coherence::activity_ok(s.pool, a));
        let j = choose|j: int|
            0 <= j < a.views.len() && (#[trigger] a.views[j]).view.ids.contains(x);
        assert(crate::coherence::view_ok(s.pool, a.id, a.views[j].view));
        assert(s.pool.member(x, a.id));
    }
    law_repairing_is_idle(s);
}

/// A second repair changes nothing.
pub proof fn law_repairing_twice(s: LayoutModel)
    requires
        forall|i: int| 0 <= i < s.acts.list.len() ==> entries_ok(#[trigger] s.acts.list[i]),
    ensures
        s.repair().no_zombies(),
        s.repair().repair() == s.repair(),
{
    law_repairing_leaves_no_zombies(s);
    let t = s.repair();
    lemma_drop_each_len(s.acts, s.zombies());
    assert forall|i: int, x: WorkspaceId|
        0 <= i < t.acts.list.len() && #[trigger] occurs(t.acts.list[i], x) implies t.pool.has(
        x,
    ) by {}
    law_repairing_is_idle(t);
}

/// Taking workspaces out of all views leaves the activities.
pub proof fn lemma_drop_each_len(s: ActivitiesModel, work: Seq<Stray>)
    ensures
        s.drop_each(work).list.len() == s.list.len(),
    decreases work.len(),
{
    if work.len() > 0 {
        lemma_drop_each_len(s, work.drop_last());
    }
}

/// `w` is what is left of `v`: what passes `p` is there, in order, and active if it was; no view is
/// left only where nothing passes.
pub open spec fn left_of(
    v: Option<ViewModel>,
    w: Option<ViewModel>,
    p: spec_fn(WorkspaceId) -> bool,
) -> bool {
    match (v, w) {
        (Some(v), Some(w)) => w.ids.filter(p) == v.ids.filter(p) && (p(v.active) ==> w.active
            == v.active),
        (Some(v), None) => v.ids.filter(p).len() == 0,
        (None, Some(_)) => false,
        (None, None) => true,
    }
}

/// Taking one workspace out of a view leaves the others in order.
pub proof fn lemma_rid_filter(v: ViewModel, id: WorkspaceId, p: spec_fn(WorkspaceId) -> bool)
    requires
        v.wf(),
        !p(id),
    ensures
        match crate::keeping::rid(v, id) {
            Some(w) => w.ids.filter(p) == v.ids.filter(p) && (p(v.active) ==> w.active == v.active),
            None => v.ids.filter(p).len() == 0,
        },
{
    lemma_find_from(v.ids, equal_to(id), 0);
    match v.position_of(id) {
        Some(k) => {
            crate::cores::lemma_filter_remove(v.ids, k, p);
            if v.ids.len() == 1 {
                assert(v.ids.remove(k) =~= Seq::<WorkspaceId>::empty());
                reveal(Seq::filter);
            }
        },
        None => {},
    }
}

/// Taking workspaces that do not pass out of all views leaves the others in order.
pub proof fn lemma_drop_each_left(
    s: ActivitiesModel,
    work: Seq<Stray>,
    i: int,
    o: OutputId,
    p: spec_fn(WorkspaceId) -> bool,
)
    requires
        0 <= i < s.list.len(),
        entries_ok(s.list[i]),
        forall|k: int| 0 <= k < work.len() ==> !p((#[trigger] work[k]).id),
    ensures
        s.drop_each(work).list.len() == s.list.len(),
        entries_ok(s.drop_each(work).list[i]),
        left_of(s.list[i].view_of(o), s.drop_each(work).list[i].view_of(o), p),
    decreases work.len(),
{
    lemma_drop_each(s, work, i);
    if work.len() > 0 {
        let rest = work.drop_last();
        let id = work.last().id;
        assert forall|k: int| 0 <= k < rest.len() implies !p((#[trigger] rest[k]).id) by {
            assert(!p(work[k].id));
        }
        lemma_drop_each_left(s, rest, i, o, p);
        let t = s.drop_each(rest);
        assert(!p(work[work.len() - 1].id));
        crate::keeping::lemma_without_view(t.list[i], id, o);
        assert(s.drop_each(work).list[i] == t.list[i].drop_workspace(id));
        if let Some(v) = t.list[i].view_of(o) {
            lemma_find_from(t.list[i].views, keyed(o), 0);
            assert(v.wf());
            lemma_rid_filter(v, id, p);
        }
    }
}

/// A repair keeps of every view what exists, in the same order, and a view that held nothing that
/// exists is dropped. The workspaces themselves, and which activities there are, stay as they are.
pub proof fn law_repairing_keeps_the_rest(s: LayoutModel, i: int, o: OutputId)
    requires
        forall|k: int| 0 <= k < s.acts.list.len() ==> entries_ok(#[trigger] s.acts.list[k]),
        0 <= i < s.acts.list.len(),
    ensures
        s.repair().pool == s.pool,
        s.repair().monitors == s.monitors,
        s.repair().parked == s.parked.filter(pooled(s.pool)),
        s.repair().acts.list.len() == s.acts.list.len(),
        match (s.acts.list[i].view_of(o), s.repair().acts.list[i].view_of(o)) {
            (Some(v), Some(w)) => w.ids == v.ids.filter(pooled(s.pool)) && w.ids.len() > 0 && (
            s.pool.has(v.active) ==> w.active == v.active),
            (Some(v), None) => forall|x: WorkspaceId| #[trigger]
                v.ids.contains(x) ==> !s.pool.has(x),
            (None, Some(_)) => false,
            (None, None) => true,
        },
{
    let t = s.repair();
    let p = pooled(s.pool);
    let work = s.zombies();
    lemma_filter_strays(shown(s.acts.list), dangling(s.pool));
    assert forall|k: int| 0 <= k < work.len() implies !p((#[trigger] work[k]).id) by {
        assert(work.contains(work[k]));
    }
    assert(entries_ok(s.acts.list[i]));
    lemma_drop_each_left(s.acts, work, i, o, p);
    law_repairing_leaves_no_zombies(s);
    let b = t.acts.list[i];
    if let Some(w) = b.view_of(o) {
        lemma_find_from(b.views, keyed(o), 0);
        let j = b.view_pos(o).unwrap();
        assert(b.views[j].view.wf());
        assert forall|n: int| 0 <= n < w.ids.len() implies #[trigger] p(w.ids[n]) by {
            assert(b.views[j].view.ids.contains(w.ids[n]));
            assert(occurs(t.acts.list[i], w.ids[n]));
        }
        crate::cores::lemma_filter_all(w.ids, p);
    } else if let Some(v) = s.acts.list[i].view_of(o) {
        crate::keeping_views::lemma_filter(v.ids, p);
        assert forall|x: WorkspaceId| #[trigger] v.ids.contains(x) implies !s.pool.has(x) by {
            if p(x) {
                assert(v.ids.filter(p).contains(x));
            }
        }
    }
}

} // verus!
