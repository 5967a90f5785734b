//! Switching back through activities goes by how recently they were active.

use vstd::prelude::*;

use crate::activity::{ActivitiesModel, ActivityModel};
use crate::changing::previous_ok;
use crate::coherence::{acts_ok, lemma_act, lemma_act_pos, lemma_same_ids};
use crate::ids::{ActivityId, OutputId};
use crate::layout::LayoutModel;
use crate::persisting::lemma_same_strips;
use crate::search::{find, lemma_find_from};
use crate::switching::{newer, nth_newest};

verus! {

impl ActivitiesModel {
    /// The active activity was active last, no activity was active later than the count of switches
    /// says, and no two were active last at the same time.
    pub open spec fn ranked(self) -> bool {
        &&& forall|i: int|
            0 <= i < self.list.len() ==> 0 <= (#[trigger] self.list[i]).last_active_seq <= self.seq
        &&& forall|i: int|
            0 <= i < self.list.len() ==> ((#[trigger] self.list[i]).id == self.active
                <==> self.list[i].last_active_seq == self.seq)
        &&& self.seq > 0
        &&& forall|i: int, j: int|
            0 <= i < j < self.list.len() && (#[trigger] self.list[i]).last_active_seq > 0
                ==> self.list[i].last_active_seq != (#[trigger] self.list[j]).last_active_seq
    }
}

/// How many were active after `seq` is a matter of picking them.
pub proof fn lemma_newer_picks(list: Seq<ActivityModel>, seq: int)
    ensures
        newer(list, seq) == list.filter(|a: ActivityModel| a.last_active_seq > seq).len(),
    decreases list.len(),
{
    reveal(Seq::filter);
    if list.len() > 0 {
        lemma_newer_picks(list.drop_last(), seq);
    }
}

/// At most one activity was active last at a given time.
pub proof fn lemma_newer_step(list: Seq<ActivityModel>, v: int)
    requires
        forall|i: int, j: int|
            0 <= i < j < list.len() && (#[trigger] list[i]).last_active_seq > 0
                ==> list[i].last_active_seq != (#[trigger] list[j]).last_active_seq,
        v > 0,
    ensures
        newer(list, v) <= newer(list, v - 1) <= newer(list, v) + 1,
        newer(list, v - 1) > newer(list, v) ==> exists|i: int|
            0 <= i < list.len() && (#[trigger] list[i]).last_active_seq == v,
    decreases list.len(),
{
    if list.len() > 0 {
        let rest = list.drop_last();
        assert forall|i: int, j: int|
            0 <= i < j < rest.len() && (#[trigger] rest[i]).last_active_seq
                > 0 implies rest[i].last_active_seq != (#[trigger] rest[j]).last_active_seq by {
            assert(list[i].last_active_seq != list[j].last_active_seq);
        }
        lemma_newer_step(rest, v);
        if newer(rest, v - 1) > newer(rest, v) {
            let i = choose|i: int| 0 <= i < rest.len() && (#[trigger] rest[i]).last_active_seq == v;
            assert(list[i].last_active_seq == v);
            assert(list[list.len() - 1].last_active_seq != v);
        } else if list.last().last_active_seq == v {
            assert(list[list.len() - 1].last_active_seq == v);
        }
    }
}

/// Nothing was active after the last time.
pub proof fn lemma_newer_none(list: Seq<ActivityModel>, v: int)
    requires
        forall|i: int| 0 <= i < list.len() ==> (#[trigger] list[i]).last_active_seq <= v,
    ensures
        newer(list, v) == 0,
    decreases list.len(),
{
    if list.len() > 0 {
        let rest = list.drop_last();
        assert forall|i: int| 0 <= i < rest.len() implies (#[trigger] rest[i]).last_active_seq
            <= v by {
            assert(list[i].last_active_seq <= v);
        }
        lemma_newer_none(rest, v);
        assert(list[list.len() - 1].last_active_seq <= v);
    }
}

/// There is an activity after which exactly `n` were active, if more than `n` were active at all.
pub proof fn lemma_nth_exists(list: Seq<ActivityModel>, n: int, v: int) -> (i: int)
    requires
        forall|i: int, j: int|
            0 <= i < j < list.len() && (#[trigger] list[i]).last_active_seq > 0
                ==> list[i].last_active_seq != (#[trigger] list[j]).last_active_seq,
        0 <= v,
        0 <= n,
        newer(list, v) <= n < newer(list, 0),
    ensures
        0 <= i < list.len(),
        list[i].last_active_seq > 0,
        newer(list, list[i].last_active_seq) == n,
    decreases v,
{
    lemma_newer_step(list, v);
    if newer(list, v - 1) <= n {
        lemma_nth_exists(list, n, v - 1)
    } else {
        choose|i: int| 0 <= i < list.len() && (#[trigger] list[i]).last_active_seq == v
    }
}

/// Going back by `depth` leads to an activity that was active before, other than the active one,
/// after which exactly `depth` activities were active, or to the one that was active the longest
/// ago if fewer were. It leads nowhere exactly if `depth` is zero or nothing but the active activity
/// was ever active.
pub proof fn law_going_back_goes_by_recency(s: LayoutModel, depth: u32)
    requires
        acts_ok(s.acts),
        s.acts.ranked(),
    ensures
        ({
            let list = s.acts.list;
            let known = list.filter(|a: ActivityModel| a.last_active_seq > 0).len();
            match s.recent(depth) {
                None => depth == 0 || known <= 1,
                Some(id) => depth > 0 && known > 1 && id != s.acts.active && exists|i: int|
                    0 <= i < list.len() && (#[trigger] list[i]).id == id && list[i].last_active_seq
                        > 0 && list.filter(
                        |a: ActivityModel| a.last_active_seq > list[i].last_active_seq,
                    ).len() == if depth < known {
                        depth as int
                    } else {
                        known - 1
                    },
            }
        }),
{
    let list = s.acts.list;
    let known = newer(list, 0) as int;
    lemma_newer_picks(list, 0);
    if depth > 0 && known > 1 {
        let n: int = if depth < known {
            depth as int
        } else {
            known - 1
        };
        let q = nth_newest(list, n);
        lemma_newer_none(list, s.acts.seq);
        let k = lemma_nth_exists(list, n, s.acts.seq);
        assert(q(list[k]));
        lemma_find_from(list, q, 0);
        let i = find(list, q).unwrap();
        lemma_newer_picks(list, list[i].last_active_seq);
        assert(list[i].id != s.acts.active) by {
            if list[i].id == s.acts.active {
                assert(list[i].last_active_seq == s.acts.seq);
            }
        }
        assert(s.recent(depth) == Some(list[i].id));
    }
}

/// Switching to another activity of a whole layout leaves it whole as it is.
pub proof fn lemma_switch_whole(s: LayoutModel, target: ActivityId)
    requires
        s.whole(),
        s.acts.has(target),
        s.switch_activity(target).fits(),
    ensures
        s.switch_activity(target).whole(),
        s.switch_activity(target).mended() == s.switch_activity(target),
{
    let t = s.switch_activity(target);
    crate::promises::law_switching_disturbs_nothing(s, target);
    crate::changing::law_switching_keeps_coherence(s, target);
    lemma_switched_acts(s, target);
    if target != s.acts.active {
        crate::abiding::lemma_switch_activity_level(s, target);
        lemma_same_ids(s.acts, t.acts);
        lemma_switched_frame(s, target);
        lemma_same_strips(s, t);
    }
    crate::wholeness::law_mending_is_idle(t);
}

/// What switching to another activity does to the monitors and to what waits.
pub proof fn lemma_switched_frame(s: LayoutModel, target: ActivityId)
    requires
        target != s.acts.active,
        s.acts.has(target),
    ensures
        ({
            let t = s.switch_activity(target);
            &&& t.parked == s.parked
            &&& t.primary == s.primary
            &&& t.focused == s.focused
            &&& t.monitors.len() == s.monitors.len()
            &&& forall|i: int|
                0 <= i < s.monitors.len() ==> (#[trigger] s.monitors[i]).empty_workspace_above_first
                    == t.monitors[i].empty_workspace_above_first
        }),
{
    let t = s.switch_activity(target);
    let a = LayoutModel { acts: s.acts.set_active(target), ..s.settle_all() };
    crate::materialize::lemma_ensure_all_leads(a);
    assert forall|i: int|
        0 <= i < s.monitors.len() implies (#[trigger] s.monitors[i]).empty_workspace_above_first
        == t.monitors[i].empty_workspace_above_first by {
        assert(a.monitors[i].empty_workspace_above_first
            == a.ensure_all().monitors[i].empty_workspace_above_first);
    }
}

/// What switching to another activity does to the activities.
pub proof fn lemma_switched_acts(s: LayoutModel, target: ActivityId)
    requires
        s.whole(),
        s.acts.has(target),
    ensures
        target != s.acts.active ==> s.switch_activity(target).acts == s.acts.set_active(target),
        previous_ok(s.switch_activity(target).acts),
{
    if target != s.acts.active {
        let a = LayoutModel { acts: s.acts.set_active(target), ..s.settle_all() };
        lemma_act(s.acts, target);
        assert(a.acts.ids() =~= s.acts.ids());
        lemma_same_ids(s.acts, a.acts);
        assert forall|x: ActivityId, o: OutputId| #[trigger] a.view_of(x, o) == s.view_of(x, o) by {
            lemma_act(s.acts, x);
            lemma_act(a.acts, x);
            assert(a.acts.pos(x) == s.acts.pos(x));
        }
        assert(a.complete()) by {
            assert forall|i: int, m: int|
                0 <= i < a.acts.list.len() && 0 <= m < a.monitors.len() implies a.view_of(
                (#[trigger] a.acts.list[i]).id,
                (#[trigger] a.monitors[m]).output.id,
            ) is Some by {
                assert(s.view_of(s.acts.list[i].id, s.monitors[m].output.id) is Some);
            }
        }
        crate::promises::lemma_ensure_rows_idle(a, a.acts.list.len() as int);
        assert(a.ensure_all() == a);
        assert(s.acts.has(s.acts.active));
    }
}

/// The activity that is switched to is active, the one before it is the previous one, and how
/// recently the others were active stays as it was. Going back by one leads back.
pub proof fn law_switching_and_going_back(s: LayoutModel, target: ActivityId)
    requires
        s.whole(),
        s.acts.ranked(),
        s.acts.has(target),
        target != s.acts.active,
        s.switch_activity(target).fits(),
    ensures
        ({
            let t = s.switch_activity(target).mended();
            &&& t.acts.active == target
            &&& t.acts.previous == Some(s.acts.active)
            &&& t.acts.ranked()
            &&& t.recent(1) == Some(s.acts.active)
            &&& t.acts.list.len() == s.acts.list.len()
            &&& forall|i: int|
                0 <= i < s.acts.list.len() ==> (#[trigger] t.acts.list[i]).id == s.acts.list[i].id
                    && t.acts.list[i].name == s.acts.list[i].name && (s.acts.list[i].id != target
                    ==> t.acts.list[i].last_active_seq == s.acts.list[i].last_active_seq)
            &&& t.switch_activity(s.acts.active).fits() ==> t.switch_activity(
                s.acts.active,
            ).mended().acts.active == s.acts.active
        }),
{
    let u = s.switch_activity(target);
    let t = u.mended();
    lemma_switch_whole(s, target);
    lemma_switched_acts(s, target);
    lemma_act(s.acts, target);
    lemma_act(s.acts, s.acts.active);
    let k = s.acts.pos(target).unwrap();
    let j = s.acts.pos(s.acts.active).unwrap();
    assert(t.acts == s.acts.set_active(target));
    assert(t.acts.ranked()) by {
        assert forall|i: int| 0 <= i < t.acts.list.len() implies 0 <= (
        #[trigger] t.acts.list[i]).last_active_seq <= t.acts.seq && (t.acts.list[i].id
            == t.acts.active <==> t.acts.list[i].last_active_seq == t.acts.seq) by {
            assert(s.acts.list[i].last_active_seq <= s.acts.seq);
            if s.acts.list[i].id == target {
                lemma_act_pos(s.acts, i);
                assert(i == k);
            }
        }
        assert forall|x: int, y: int|
            0 <= x < y < t.acts.list.len() && (#[trigger] t.acts.list[x]).last_active_seq
                > 0 implies t.acts.list[x].last_active_seq != (
        #[trigger] t.acts.list[y]).last_active_seq by {
            assert(s.acts.list[x].last_active_seq <= s.acts.seq);
            assert(s.acts.list[y].last_active_seq <= s.acts.seq);
            assert(s.acts.list[x].last_active_seq > 0 ==> s.acts.list[x].last_active_seq
                != s.acts.list[y].last_active_seq);
        }
    }
    law_going_back_goes_by_recency(t, 1);
    let list = t.acts.list;
    assert(list[j].last_active_seq == s.acts.seq);
    assert(list[k].last_active_seq == s.acts.seq + 1);
    lemma_newer_none(list, s.acts.seq + 1);
    lemma_newer_step(list, s.acts.seq + 1);
    assert(newer(list, s.acts.seq) == 1) by {
        if newer(list, s.acts.seq) == 0 {
            lemma_newer_one(list, s.acts.seq, k);
        }
    }
    lemma_newer_step(list, s.acts.seq);
    lemma_newer_one(list, s.acts.seq - 1, j);
    assert(newer(list, s.acts.seq - 1) == 2) by {
        if newer(list, s.acts.seq - 1) == 1 {
            lemma_newer_two(list, s.acts.seq - 1, j, k);
        }
    }
    lemma_newer_falls(list, 0, s.acts.seq - 1);
    lemma_newer_picks(list, 0);
    let q = nth_newest(list, 1);
    assert(q(list[j]));
    lemma_find_from(list, q, 0);
    let i = find(list, q).unwrap();
    assert(list[i].last_active_seq == s.acts.seq) by {
        let z = list[i].last_active_seq;
        if z > s.acts.seq {
            lemma_newer_none(list, z);
        } else if z < s.acts.seq {
            lemma_newer_falls(list, z, s.acts.seq - 1);
        }
    }
    if i != j {
        if i < j {
            assert(list[i].last_active_seq != list[j].last_active_seq);
        } else {
            assert(list[j].last_active_seq != list[i].last_active_seq);
        }
    }
    assert(t.recent(1) == Some(s.acts.active));
    let back = t.switch_activity(s.acts.active);
    if back.fits() {
        assert(t.acts.ids() =~= s.acts.ids());
        lemma_same_ids(s.acts, t.acts);
        lemma_switch_whole(t, s.acts.active);
        crate::promises::law_switching_disturbs_nothing(t, s.acts.active);
    }
}

/// An activity that was active later counts.
pub proof fn lemma_newer_one(list: Seq<ActivityModel>, v: int, k: int)
    requires
        0 <= k < list.len(),
        list[k].last_active_seq > v,
    ensures
        newer(list, v) >= 1,
    decreases list.len(),
{
    if k < list.len() - 1 {
        lemma_newer_one(list.drop_last(), v, k);
    }
}

/// Two activities that were active later count twice.
pub proof fn lemma_newer_two(list: Seq<ActivityModel>, v: int, j: int, k: int)
    requires
        0 <= j < list.len(),
        0 <= k < list.len(),
        j != k,
        list[j].last_active_seq > v,
        list[k].last_active_seq > v,
    ensures
        newer(list, v) >= 2,
    decreases list.len(),
{
    let n = list.len() - 1;
    if j < n && k < n {
        lemma_newer_two(list.drop_last(), v, j, k);
    } else if j < n {
        lemma_newer_one(list.drop_last(), v, j);
    } else {
        lemma_newer_one(list.drop_last(), v, k);
    }
}

/// Fewer were active after a later time.
pub proof fn lemma_newer_falls(list: Seq<ActivityModel>, a: int, b: int)
    requires
        a <= b,
    ensures
        newer(list, b) <= newer(list, a),
    decreases list.len(),
{
    if list.len() > 0 {
        lemma_newer_falls(list.drop_last(), a, b);
    }
}

/// At the beginning, with or without activities that are declared, only the active activity was
/// active.
pub proof fn law_beginnings_are_ranked(names: Seq<Seq<char>>)
    requires
        names.len() < u64::MAX,
    ensures
        ActivitiesModel::lone().ranked(),
        ActivitiesModel::declared(names).ranked(),
{
    let acts = ActivitiesModel::declared(names);
    assert forall|i: int| 0 <= i < acts.list.len() implies 0 <= (
    #[trigger] acts.list[i]).last_active_seq <= acts.seq && (acts.list[i].id == acts.active
        <==> acts.list[i].last_active_seq == acts.seq) by {
        if names.len() > 0 {
            assert(acts.list[i] == ActivitiesModel::declared_at(names, i));
        }
    }
}

/// Renaming an activity does not change how recently any was active.
pub proof fn law_renaming_keeps_ranked(s: LayoutModel, target: ActivityId, name: Seq<char>)
    requires
        s.whole(),
        s.acts.ranked(),
        s.acts.has(target),
        s.rename_activity(target, name).mended().fits(),
    ensures
        s.rename_activity(target, name).mended().acts.ranked(),
{
    let t = s.rename_activity(target, name).mended();
    lemma_act(s.acts, target);
    let k = s.acts.pos(target).unwrap();
    crate::enrolling::law_renamed_activity_has_the_name(s, target, name, k);
    let r = s.rename_activity(target, name);
    assert forall|i: int| 0 <= i < t.acts.list.len() implies (#[trigger] t.acts.list[i]).id
        == s.acts.list[i].id && t.acts.list[i].last_active_seq == s.acts.list[i].last_active_seq by {
        if i != k {
            assert(t.acts.list[i] == s.acts.list[i]);
        }
    }
    assert forall|i: int| 0 <= i < t.acts.list.len() implies 0 <= (
    #[trigger] t.acts.list[i]).last_active_seq <= t.acts.seq && (t.acts.list[i].id == t.acts.active
        <==> t.acts.list[i].last_active_seq == t.acts.seq) by {
        assert(0 <= s.acts.list[i].last_active_seq <= s.acts.seq);
    }
    assert forall|i: int, j: int|
        0 <= i < j < t.acts.list.len() && (#[trigger] t.acts.list[i]).last_active_seq
            > 0 implies t.acts.list[i].last_active_seq != (#[trigger] t.acts.list[j]).last_active_seq by {
        assert(s.acts.list[i].last_active_seq != s.acts.list[j].last_active_seq);
    }
}

} // verus!
