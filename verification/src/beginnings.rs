//! A layout starts out whole and in order, whatever the configuration declares.

use vstd::prelude::*;

use crate::activity::{keyed, ActivitiesModel};
use crate::census::{lemma_push_tally, tally};
use crate::changing::lists_once;
use crate::coherence::{acts_ok, lemma_act, lemma_act_pos, lemma_get, member_ok};
use crate::config::{mentioned, WorkspaceDeclModel};
use crate::ids::{ActivityId, OutputId, WindowId, WorkspaceId};
use crate::layout::{LayoutModel, Options};
use crate::pool::PoolModel;
use crate::promises::law_beginnings_are_sound;
use crate::search::lemma_find_from;

verus! {

/// A layout that was just made, with no workspace, is whole and in order.
pub proof fn law_beginnings_are_whole(options: Options)
    ensures
        LayoutModel::outset(
            ActivitiesModel::lone(),
            PoolModel { items: Seq::empty(), next: 1 },
            Seq::empty(),
            options,
        ).whole(),
        LayoutModel::outset(
            ActivitiesModel::lone(),
            PoolModel { items: Seq::empty(), next: 1 },
            Seq::empty(),
            options,
        ).orderly(),
{
    let s = LayoutModel::outset(
        ActivitiesModel::lone(),
        PoolModel { items: Seq::empty(), next: 1 },
        Seq::empty(),
        options,
    );
    law_beginnings_are_sound(options);
    assert(s.acts.list.len() == 1);
    assert forall|a: ActivityId, o: OutputId| #[trigger] s.view_of(a, o) is None by {
        lemma_act(s.acts, a);
        if let Some(i) = s.acts.pos(a) {
            lemma_find_from(s.acts.list[i].views, keyed(o), 0);
        }
    }
}

/// A declared workspace lists no activity twice.
pub proof fn lemma_declared_once(acts: ActivitiesModel, d: WorkspaceDeclModel)
    requires
        acts_ok(acts),
    ensures
        acts.declared_for(d).no_duplicates(),
{
    let n = acts.list.len() as int;
    assert(acts.list.take(n) =~= acts.list);
    crate::abiding::lemma_some_ids(acts, mentioned(d.activities), n);
    if d.sticky {
        assert forall|i: int, j: int| 0 <= i < acts.ids().len() && 0 <= j < acts.ids().len() && i
            != j implies acts.ids()[i] != acts.ids()[j] by {
            lemma_act_pos(acts, i);
            lemma_act_pos(acts, j);
        }
    }
}

/// The declared workspaces get the first ids, in order.
pub proof fn lemma_mint_all(decls: Seq<WorkspaceDeclModel>, acts: ActivitiesModel)
    requires
        decls.len() < u64::MAX,
    ensures
        ({
            let p = (PoolModel { items: Seq::empty(), next: 1 }).mint_all(decls, acts);
            &&& p.items.len() == decls.len()
            &&& p.next == decls.len() + 1
            &&& forall|i: int|
                0 <= i < decls.len() ==> (#[trigger] p.items[i]).id == WorkspaceId((i + 1) as u64)
                    && p.items[i].name is Some && p.items[i].activities == acts.declared_for(
                    decls[i],
                )
        }),
    decreases decls.len(),
{
    if decls.len() > 0 {
        lemma_mint_all(decls.drop_last(), acts);
    }
}

/// The declared workspaces hold no window.
pub proof fn lemma_mint_all_empty(decls: Seq<WorkspaceDeclModel>, acts: ActivitiesModel, w: WindowId)
    ensures
        tally((PoolModel { items: Seq::empty(), next: 1 }).mint_all(decls, acts).items, w) == 0,
    decreases decls.len(),
{
    broadcast use lemma_push_tally;

    if decls.len() > 0 {
        lemma_mint_all_empty(decls.drop_last(), acts, w);
    }
}

/// The activities that a configuration declares are in order.
pub proof fn lemma_declared_acts(names: Seq<Seq<char>>)
    requires
        names.len() < u64::MAX,
    ensures
        acts_ok(ActivitiesModel::declared(names)),
{
    let acts = ActivitiesModel::declared(names);
    assert(acts.list[0].id == ActivityId(1));
    lemma_find_from(acts.list, crate::activity::named(ActivityId(1)), 0);
    assert(crate::activity::named(ActivityId(1))(acts.list[0]));
}

/// The layout that a configuration starts from is whole and in order: every declared workspace waits for an
/// output.
pub proof fn law_configured_is_whole(
    names: Seq<Seq<char>>,
    decls: Seq<WorkspaceDeclModel>,
    options: Options,
)
    requires
        names.len() < u64::MAX,
        decls.len() < u64::MAX,
    ensures
        LayoutModel::configured(names, decls, options).whole(),
        LayoutModel::configured(names, decls, options).orderly(),
{
    let s = LayoutModel::configured(names, decls, options);
    let acts = ActivitiesModel::declared(names);
    assert forall|w: WindowId| #[trigger] s.census(w) <= 1 by {
        lemma_mint_all_empty(decls, acts, w);
    }
    lemma_declared_acts(names);
    lemma_mint_all(decls, acts);
    assert(s.pool.wf());
    assert forall|i: int| 0 <= i < s.pool.items.len() implies member_ok(
        s.acts,
        #[trigger] s.pool.items[i],
    ) && s.pool.items[i].activities.no_duplicates() by {
        crate::reloading::lemma_declared_for(acts, decls[i]);
        lemma_declared_once(acts, decls[i]);
    }
    assert(lists_once(s.pool));
    assert forall|a: ActivityId, o: OutputId| #[trigger] s.view_of(a, o) is None by {
        lemma_act(s.acts, a);
        if let Some(i) = s.acts.pos(a) {
            lemma_find_from(s.acts.list[i].views, keyed(o), 0);
        }
    }
    assert forall|i: int| 0 <= i < s.parked.len() implies s.pool.has(#[trigger] s.parked[i])
        && s.pool.busy(s.parked[i]) by {
        lemma_get(s.pool, s.parked[i]);
        assert(s.pool.items[i].id == s.parked[i]);
    }
    assert forall|x: WorkspaceId| #[trigger] s.pool.has(x) implies s.parked.contains(x) by {
        lemma_get(s.pool, x);
        let k = s.pool.pos(x).unwrap();
        assert(s.parked[k] == x);
    }
}

} // verus!
