//! Activities come, go and change their names as asked, and nothing that is in use is lost by it.

use vstd::prelude::*;

use crate::abiding::{dissolved, nowhere};
use crate::activity::ActivityModel;
use crate::coherence::{lemma_act, lemma_act_pos, lemma_get, lemma_same_ids};
use crate::ids::{ActivityId, OutputId, WorkspaceId};
use crate::layout::LayoutModel;
use crate::persisting::{lemma_mended_work, lemma_same_strips};
use crate::search::{find, lemma_find_from};
use crate::switching::other_than;

verus! {

/// An activity that is renamed has the new name. Nothing else changes: no other name, no view, no
/// workspace, and not which activity is active.
pub proof fn law_renamed_activity_has_the_name(
    s: LayoutModel,
    target: ActivityId,
    name: Seq<char>,
    i: int,
)
    requires
        s.whole(),
        0 <= i < s.acts.list.len(),
        s.acts.list[i].id == target,
        s.rename_activity(target, name).mended().fits(),
    ensures
        ({
            let t = s.rename_activity(target, name).mended();
            &&& t.acts.list.len() == s.acts.list.len()
            &&& t.acts.list[i] == (ActivityModel { name, ..s.acts.list[i] })
            &&& forall|j: int|
                0 <= j < s.acts.list.len() && j != i ==> #[trigger] t.acts.list[j] == s.acts.list[j]
            &&& t.acts.active == s.acts.active
            &&& t.acts.previous == s.acts.previous
            &&& t.acts.seq == s.acts.seq
            &&& t.pool == s.pool
            &&& t.parked == s.parked
            &&& t.monitors == s.monitors
            &&& t.focused == s.focused
        }),
{
    let r = s.rename_activity(target, name);
    lemma_act_pos(s.acts, i);
    let a = s.acts.list[i];
    let b = ActivityModel { name, ..a };
    crate::promises::law_renaming_renames_only(s, target, name);
    assert(crate::coherence::activity_ok(s.pool, b)) by {
        assert(crate::coherence::activity_ok(s.pool, s.acts.list[i]));
    }
    crate::coherence::lemma_put_coherent(s, target, b);
    lemma_same_ids(s.acts, r.acts);
    assert forall|x: ActivityId, o: OutputId|
        match (#[trigger] r.view_of(x, o), s.view_of(x, o)) {
            (Some(w), Some(v)) => w.ids == v.ids,
            (None, None) => true,
            _ => false,
        } by {
        assert(r.view_of(x, o) == s.view_of(x, o));
    }
    lemma_same_strips(s, r);
    crate::wholeness::law_mending_is_idle(r);
}

/// An activity that is created is the last one, with a number that none had. The others stay, and so
/// does the active one. Of what is in use, the sticky workspaces belong to it and no others; nothing
/// else about them changes.
pub proof fn law_created_activity_is_the_last(s: LayoutModel, name: Seq<char>)
    requires
        s.whole(),
        s.create_activity(name).mended().fits(),
    ensures
        ({
            let t = s.create_activity(name).mended();
            let new = t.acts.ids().last();
            &&& t.acts.ids() == s.acts.ids().push(new)
            &&& !s.acts.has(new)
            &&& t.acts.active == s.acts.active
            &&& t.focused == s.focused
            &&& forall|x: WorkspaceId| #[trigger]
                s.pool.busy(x) ==> {
                    &&& t.pool.has(x)
                    &&& t.pool.get(x).unwrap().tiles == s.pool.get(x).unwrap().tiles
                    &&& t.pool.get(x).unwrap().name == s.pool.get(x).unwrap().name
                    &&& t.pool.member(x, new) == s.pool.get(x).unwrap().sticky
                    &&& forall|a: ActivityId|
                        a != new ==> #[trigger] t.pool.member(x, a) == s.pool.member(x, a)
                }
        }),
{
    let r = s.create_activity(name);
    let t = r.mended();
    let e = s.extended(name);
    let f = e.ensure_all();
    let new = ActivityId(s.acts.next as u64);
    let o = nowhere();
    crate::mending::lemma_mended_leads(r);
    crate::materialize::lemma_ensure_all_leads(e);
    crate::reconcile::lemma_reconcile_leads(f);
    assert(r == f.reconcile());
    crate::changing::lemma_extended(s, name);
    crate::steadying::lemma_ensure_rows_steady(e, e.acts.list.len() as int, o);
    crate::abiding::lemma_reconcile_steady(f);
    crate::steadying::lemma_steady_trans(e, f, r, o);
    lemma_mended_work(r);
    assert(e.acts.ids() =~= s.acts.ids().push(new));
    assert(t.acts.ids() == e.acts.ids());
    assert(t.acts.ids().last() == new);
    assert(!s.acts.has(new)) by {
        lemma_act(s.acts, new);
        if let Some(i) = s.acts.pos(new) {
            assert(s.acts.list[i].id.0 < s.acts.next);
        }
    }
    assert forall|x: WorkspaceId| #[trigger] s.pool.busy(x) implies {
        &&& t.pool.has(x)
        &&& t.pool.get(x).unwrap().tiles == s.pool.get(x).unwrap().tiles
        &&& t.pool.get(x).unwrap().name == s.pool.get(x).unwrap().name
        &&& t.pool.member(x, new) == s.pool.get(x).unwrap().sticky
        &&& forall|a: ActivityId|
            a != new ==> #[trigger] t.pool.member(x, a) == s.pool.member(x, a)
    } by {
        lemma_get(s.pool, x);
        let i = s.pool.pos(x).unwrap();
        let w = s.pool.items[i];
        assert(e.pool.items[i].id == x);
        crate::coherence::lemma_pos_of(e.pool, i);
        let u = e.pool.items[i];
        assert(!w.activities.contains(new)) by {
            assert(crate::coherence::member_ok(s.acts, s.pool.items[i]));
            if w.activities.contains(new) {
                assert(s.pool.member(x, new));
                assert(s.acts.has(new));
            }
        }
        assert(e.pool.busy(x));
        assert(r.pool.busy(x));
        assert(crate::cores::kin(u, r.pool.get(x).unwrap()));
        if w.sticky {
            let l = w.activities.push(new);
            assert(u.activities == l);
            assert(l[l.len() - 1] == new);
            assert(l.contains(new));
            assert forall|a: ActivityId| a != new implies l.contains(a) == w.activities.contains(a) by {
                if l.contains(a) {
                    let k = choose|k: int| 0 <= k < l.len() && l[k] == a;
                    assert(w.activities[k] == a);
                }
                if w.activities.contains(a) {
                    let k = choose|k: int| 0 <= k < w.activities.len() && w.activities[k] == a;
                    assert(l[k] == a);
                }
            }
        }
        assert forall|a: ActivityId| a != new implies #[trigger] t.pool.member(x, a)
            == s.pool.member(x, a) by {
            assert(t.pool.member(x, a) == r.pool.member(x, a));
        }
        assert(t.pool.member(x, new) == r.pool.member(x, new));
    }
}

/// An activity that is removed, from place `k` of the list, is gone and the others stay in their
/// order. If it was active, the one that was active before it is, or else the first other one. What
/// is in use stays, and belongs to the same activities but that.
pub proof fn law_removed_activity_is_gone(s: LayoutModel, target: ActivityId, k: int)
    requires
        s.whole(),
        0 <= k < s.acts.list.len(),
        s.acts.list[k].id == target,
        s.remove_error(target) is None,
        s.remove_activity(target, s.own_of(target)).mended().fits(),
    ensures
        ({
            let t = s.remove_activity(target, s.own_of(target)).mended();
            &&& t.acts.ids() == s.acts.ids().remove(k)
            &&& t.acts.active == if target != s.acts.active {
                s.acts.active
            } else {
                match s.acts.previous {
                    Some(p) => p,
                    None => s.acts.ids()[if k == 0 {
                        1
                    } else {
                        0
                    }],
                }
            }
            &&& forall|x: WorkspaceId| #[trigger]
                s.pool.busy(x) ==> {
                    &&& t.pool.has(x)
                    &&& t.pool.get(x).unwrap().tiles == s.pool.get(x).unwrap().tiles
                    &&& t.pool.get(x).unwrap().name == s.pool.get(x).unwrap().name
                    &&& forall|a: ActivityId| #[trigger]
                        t.pool.member(x, a) == (a != target && s.pool.member(x, a))
                }
        }),
{
    let own = s.own_of(target);
    let r = s.remove_activity(target, own);
    let t = r.mended();
    let s1 = s.yielded(target);
    let s3 = s.departed(target);
    let s4 = s3.disarm_stale();
    let s5 = s4.ensure_all();
    let narrowed = s.narrowed_by(target);
    let o = nowhere();
    assert(r == s5.reclaim_all(narrowed));
    crate::mending::lemma_mended_leads(r);
    crate::reclaim::lemma_reclaim_all_leads(s5, narrowed);
    crate::materialize::lemma_ensure_all_leads(s4);
    crate::reclaim::lemma_destroy_all_leads(s1, own);
    assert(s1.before(s3));
    assert(s1.fits());
    lemma_act_pos(s.acts, k);
    crate::changing::lemma_yielded(s, target);
    lemma_same_ids(s.acts, s1.acts);
    assert(s3 == s1.disband(target));
    crate::abiding::lemma_disband_staffed(s1, target);
    crate::steadying::lemma_steady_acts(s3, s4, o);
    crate::steadying::lemma_ensure_rows_steady(s4, s4.acts.list.len() as int, o);
    crate::abiding::lemma_reclaim_all_steady(s5, narrowed);
    crate::steadying::lemma_steady_trans(s3, s4, s5, o);
    crate::steadying::lemma_steady_trans(s3, s5, r, o);
    lemma_mended_work(r);
    // The list.
    let d = s1.destroy_all(own);
    assert(d.acts.ids() == s.acts.ids());
    lemma_same_ids(s.acts, d.acts);
    assert(d.acts.pos(target) == Some(k));
    assert(s3.acts.list == d.acts.list.remove(k));
    assert(d.acts.list.len() == d.acts.ids().len());
    assert(s3.acts.ids() =~= d.acts.ids().remove(k)) by {
        assert forall|i: int| 0 <= i < s3.acts.list.len() implies s3.acts.ids()[i]
            == d.acts.ids().remove(k)[i] by {
            if i < k {
                assert(d.acts.ids()[i] == d.acts.list[i].id);
            } else {
                assert(d.acts.ids()[i + 1] == d.acts.list[i + 1].id);
            }
        }
    }
    // The active one.
    let ids = s.acts.ids();
    if target == s.acts.active {
        lemma_find_from(ids, other_than(target), 0);
        let first = if k == 0 {
            1int
        } else {
            0
        };
        assert(ids[first] == s.acts.list[first].id);
        lemma_act_pos(s.acts, first);
        assert(other_than(target)(ids[first]));
        assert(ids[k] == target);
        let next = s.successor(target).unwrap();
        assert(s.acts.previous is None ==> next == ids[first]) by {
            let j = find(ids, other_than(target)).unwrap();
            if j < first {
                assert(j == 0 && k == 0);
                assert(!other_than(target)(ids[0]));
            } else if first < j {
                assert(!other_than(target)(ids[first]));
            }
        }
        assert(s.acts.has(next)) by {
            if s.acts.previous is None {
            }
        }
        assert(s1 == s.switch_activity(next));
        crate::recency::lemma_switched_acts(s, next);
    }
    // The work.
    assert forall|x: WorkspaceId| #[trigger] s.pool.busy(x) implies {
        &&& t.pool.has(x)
        &&& t.pool.get(x).unwrap().tiles == s.pool.get(x).unwrap().tiles
        &&& t.pool.get(x).unwrap().name == s.pool.get(x).unwrap().name
        &&& forall|a: ActivityId| #[trigger]
            t.pool.member(x, a) == (a != target && s.pool.member(x, a))
    } by {
        assert(dissolved(s1.pool, s3.pool, seq![target], x));
        assert forall|a: ActivityId| seq![target].contains(a) == (a == target) by {
            assert(seq![target][0] == target);
        }
        lemma_not_owned(s, target, x);
        let b = choose|b: ActivityId| b != target && s.pool.member(x, b);
        assert(s1.pool.get(x).unwrap().activities.contains(b));
        assert(s3.pool.busy(x));
        assert(r.pool.busy(x));
        assert(crate::cores::kin(s3.pool.get(x).unwrap(), r.pool.get(x).unwrap()));
        assert forall|a: ActivityId| #[trigger] t.pool.member(x, a) == (a != target
            && s.pool.member(x, a)) by {
            assert(t.pool.member(x, a) == r.pool.member(x, a));
            assert(s3.pool.get(x).unwrap().activities.contains(a) <==> s1.pool.get(
                x,
            ).unwrap().activities.contains(a) && !seq![target].contains(a));
        }
    }
}

/// What is in use does not belong to an activity alone that may be removed.
pub proof fn lemma_not_owned(s: LayoutModel, target: ActivityId, x: WorkspaceId)
    requires
        s.whole(),
        s.remove_error(target) is None,
        s.pool.busy(x),
    ensures
        exists|b: ActivityId| b != target && s.pool.member(x, b),
{
    lemma_get(s.pool, x);
    let i = s.pool.pos(x).unwrap();
    let w = s.pool.items[i];
    let p = crate::switching::owned_by(target);
    let own = s.pool.items.filter(p);
    assert(crate::coherence::member_ok(s.acts, s.pool.items[i]));
    assert(w.activities.len() > 0);
    if p(w) {
        s.pool.items.lemma_filter_contains(p, i);
        assert(own.contains(w));
        let j = choose|j: int| 0 <= j < own.len() && own[j] == w;
        assert(own[j].has_windows() || own[j].name is Some);
    } else {
        let l = w.activities;
        assert(exists|b: ActivityId| b != target && s.pool.member(x, b)) by {
            if l[0] != target {
                assert(l.contains(l[0]));
                assert(s.pool.member(x, l[0]));
            } else {
                assert(l.len() > 1) by {
                    if l.len() == 1 {
                        assert(l =~= seq![target]);
                    }
                }
                assert(s.pool.items[i].activities.no_duplicates());
                assert(l[1] != l[0]);
                assert(l.contains(l[1]));
                assert(s.pool.member(x, l[1]));
            }
        }
    }
}

} // verus!
