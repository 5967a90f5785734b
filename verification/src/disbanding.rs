//! What is left when activities go.

use vstd::prelude::*;

use crate::activity::{named, ActivitiesModel};
use crate::changing::{law_switching_keeps_coherence, lemma_set_active, lists_once, previous_ok};
use crate::coherence::{acts_ok, lemma_act, lemma_act_pos, lemma_same_ids};
use crate::ids::{ActivityId, OutputId, WorkspaceId};
use crate::keeping_views::lemma_ensure_all;
use crate::layout::LayoutModel;
use crate::reload::{orphaned, shown, staying};
use crate::reloading::lemma_rows_alone;
use crate::reconcile::Stray;
use crate::search::lemma_find_from;

verus! {

/// The other activities stay when one is removed.
pub proof fn lemma_removed_has(acts: ActivitiesModel, act: ActivityId, b: ActivityId)
    requires
        acts.has(b),
        b != act,
    ensures
        acts.remove(act).has(b),
        acts.remove(act).get(b) == acts.get(b),
{
    let t = acts.remove(act);
    lemma_find_from(acts.list, named(act), 0);
    lemma_find_from(acts.list, named(b), 0);
    lemma_find_from(t.list, named(b), 0);
    let i = acts.pos(b).unwrap();
    if let Some(k) = acts.pos(act) {
        let j = if i < k {
            i
        } else {
            i - 1
        };
        assert(i != k);
        assert(t.list[j] == acts.list[i]);
        assert(named(b)(t.list[j]));
        let m = t.pos(b).unwrap();
        let n = if m < k {
            m
        } else {
            m + 1
        };
        assert(t.list[m] == acts.list[n]);
        assert(named(b)(acts.list[n]));
        assert(m == j) by {
            if m < j {
                assert(n < i);
                assert(!named(b)(acts.list[n]));
            }
        }
    }
}

/// Opening views lists no activity twice.
pub proof fn lemma_rows_list_once(s: LayoutModel, n: int)
    requires
        lists_once(s.pool),
    ensures
        lists_once(s.ensure_rows(n).pool),
    decreases n,
{
    if n > 0 {
        lemma_rows_list_once(s, n - 1);
        lemma_row_lists_once(
            s.ensure_rows(n - 1),
            s.acts.list[n - 1].id,
            s.monitors.len() as int,
        );
    }
}

/// Opening views for one activity lists no activity twice.
pub proof fn lemma_row_lists_once(s: LayoutModel, act: ActivityId, n: int)
    requires
        lists_once(s.pool),
    ensures
        lists_once(s.ensure_row(act, n).pool),
    decreases n,
{
    if n > 0 {
        lemma_row_lists_once(s, act, n - 1);
        let t = s.ensure_row(act, n - 1);
        let out = t.monitors[n - 1].output.id;
        let p = t.pool.mint(out, act);
        assert(lists_once(p));
        assert(lists_once(p.mint(out, act)));
    }
}

impl LayoutModel {
    /// What only the activities `gone` show on an output.
    pub open spec fn orphans(self, gone: Seq<ActivityId>) -> Seq<Stray> {
        let s = self.take_refuge(gone);
        shown(s.acts.list).filter(orphaned(s.acts.list, gone))
    }
}

/// As long as fewer go than there are, one stays.
pub proof fn lemma_one_stays(acts: ActivitiesModel, gone: Seq<ActivityId>)
    requires
        acts_ok(acts),
        gone.len() < acts.list.len(),
    ensures
        exists|i: int| 0 <= i < acts.ids().len() && !gone.contains(#[trigger] acts.ids()[i]),
{
    let ids = acts.ids();
    if forall|i: int| 0 <= i < ids.len() ==> gone.contains(#[trigger] ids[i]) {
        assert forall|i: int, j: int|
            0 <= i < ids.len() && 0 <= j < ids.len() && i != j implies ids[i] != ids[j] by {
            if i < j {
                assert(acts.list[i].id != acts.list[j].id);
            } else {
                assert(acts.list[j].id != acts.list[i].id);
            }
        }
        ids.unique_seq_to_set();
        gone.lemma_cardinality_of_set();
        assert(ids.to_set().subset_of(gone.to_set())) by {
            assert forall|x: ActivityId| #[trigger] ids.to_set().contains(
                x,
            ) implies gone.to_set().contains(x) by {
                let k = choose|k: int| 0 <= k < ids.len() && ids[k] == x;
                assert(gone.contains(ids[k]));
            }
        }
        vstd::set_lib::lemma_len_subset(ids.to_set(), gone.to_set());
    }
}

/// Another activity takes over from those that have to go.
pub proof fn lemma_refuge(s: LayoutModel, gone: Seq<ActivityId>)
    requires
        s.coherent(),
        lists_once(s.pool),
        previous_ok(s.acts),
        gone.len() < s.acts.list.len(),
        s.take_refuge(gone).fits(),
    ensures
        s.take_refuge(gone).coherent(),
        lists_once(s.take_refuge(gone).pool),
        !gone.contains(s.take_refuge(gone).acts.active),
        s.take_refuge(gone).acts.ids() == s.acts.ids(),
        s.take_refuge(gone).parked == s.parked,
        s.take_refuge(gone).monitors.len() == s.monitors.len(),
        forall|x: WorkspaceId| #[trigger] s.pool.has(x) ==> s.take_refuge(gone).pool.get(x)
            == s.pool.get(x),
        s.monitors.len() == 0 ==> forall|b: ActivityId, o: OutputId| #[trigger]
            s.take_refuge(gone).view_of(b, o) == s.view_of(b, o),
{
    if gone.contains(s.acts.active) {
        lemma_one_stays(s.acts, gone);
        let ids = s.acts.ids();
        lemma_find_from(ids, staying(gone), 0);
        let k = choose|k: int| 0 <= k < ids.len() && !gone.contains(#[trigger] ids[k]);
        assert(staying(gone)(ids[k]));
        let a = s.refuge(gone).unwrap();
        assert(s.acts.has(a) && !gone.contains(a)) by {
            if !(s.acts.previous is Some && !gone.contains(s.acts.previous.unwrap())) {
                let i = crate::search::find(ids, staying(gone)).unwrap();
                assert(staying(gone)(ids[i]));
                lemma_act_pos(s.acts, i);
            }
        }
        law_switching_keeps_coherence(s, a);
        lemma_set_active(s, a);
        let s1 = LayoutModel { acts: s.acts.set_active(a), ..s.settle_all() };
        assert(s1.coherent());
        assert(s1.acts.ids() =~= s.acts.ids()) by {
            lemma_act(s.acts, a);
        }
        let n = s1.acts.list.len() as int;
        lemma_rows_list_once(s1, n);
        assert(s1.ensure_all().fits());
        lemma_ensure_all(s1);
        crate::materialize::lemma_ensure_all_leads(s1);
        assert(s1.acts.active == a) by {
            lemma_act(s.acts, a);
        }
        if s.monitors.len() == 0 {
            lemma_rows_alone(s1, n);
            lemma_act(s.acts, a);
            lemma_same_ids(s.acts, s1.acts);
            assert forall|b: ActivityId, o: OutputId| #[trigger] s.take_refuge(gone).view_of(b, o)
                == s.view_of(b, o) by {
                lemma_act(s.acts, b);
                assert(s1.acts.pos(b) == s.acts.pos(b));
            }
        }
    }
}

} // verus!
