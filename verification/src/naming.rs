//! Workspaces keep different names.

use vstd::prelude::*;

use crate::coherence::lemma_get;
use crate::carrying::lemma_put_keeps;
use crate::cores::{
    calm, kept_view, lemma_calm_still, lemma_calm_trans, lemma_mint_into_calm, view_core,
};
use crate::ids::{OutputId, WorkspaceId};
use crate::invariants::{name_of, namesakes};
use crate::keeping::{law_normalize_adds_only, lemma_mint_into};
use crate::layout::LayoutModel;
use crate::lookup::id_by_name;
use crate::outputs::worth_keeping;
use crate::parking::lemma_normalize_mons_calm;
use crate::pool::PoolModel;
use crate::search::lemma_find_from;
use crate::text::same_name;
use crate::upholding::law_naming_names_only;
use crate::view::ViewModel;
use crate::workspace::{Output, WorkspaceModel};

verus! {

impl LayoutModel {
    /// Whether the active activity shows workspace `x` on monitor `m`.
    pub open spec fn on_monitor(self, m: int, x: WorkspaceId) -> bool {
        self.shows_on(self.acts.active, self.monitors[m].output.id, x)
    }

    /// Whether workspace `x` is on screen or waits for an output.
    pub open spec fn in_sight(self, x: WorkspaceId) -> bool {
        self.parked.contains(x) || exists|m: int|
            0 <= m < self.monitors.len() && #[trigger] self.on_monitor(m, x)
    }

    /// No two workspaces that are on screen or wait have the same name up to case.
    pub open spec fn names_apart(self) -> bool {
        forall|x: WorkspaceId, y: WorkspaceId| #[trigger]
            self.in_sight(x) && #[trigger] self.in_sight(y) && x != y ==> !namesakes(self.pool, x, y)
    }

    /// Workspace `id` with the name `name`, and nothing else changed.
    pub open spec fn labelled(self, id: WorkspaceId, name: Seq<char>) -> LayoutModel {
        LayoutModel { pool: self.pool.set_name(id, Some(name)), ..self }
    }
}

/// A name that no workspace is found by is the name of none.
pub proof fn lemma_name_free(s: LayoutModel, name: Seq<char>, x: WorkspaceId)
    requires
        s.named_workspace(name) is None,
        s.in_sight(x),
    ensures
        match name_of(s.pool, x) {
            Some(n) => !same_name(n, name),
            None => true,
        },
{
    let p = id_by_name(s.pool, name);
    lemma_find_from(s.monitors, s.showing_name(name), 0);
    lemma_find_from(s.parked, p, 0);
    if s.parked.contains(x) {
        let k = choose|k: int| 0 <= k < s.parked.len() && s.parked[k] == x;
        assert(!p(s.parked[k]));
    } else {
        let m = choose|m: int| 0 <= m < s.monitors.len() && #[trigger] s.on_monitor(m, x);
        assert(!s.showing_name(name)(s.monitors[m]));
        let v = s.active_view(s.monitors[m].output.id).unwrap();
        lemma_find_from(v.ids, p, 0);
        let k = choose|k: int| 0 <= k < v.ids.len() && v.ids[k] == x;
        assert(!p(v.ids[k]));
    }
}

/// After a workspace got a name, only empty workspaces come in.
pub proof fn lemma_naming_calm(s: LayoutModel, id: WorkspaceId, name: Seq<char>, o: Output)
    requires
        s.coherent(),
        s.pool.has(id),
        s.name_workspace(id, name).fits(),
    ensures
        calm(s.labelled(id, name), s.name_workspace(id, name), o),
        s.labelled(id, name).leads_to(s.name_workspace(id, name)),
{
    let w = s.pool.get(id).unwrap();
    let s1 = s.labelled(id, name);
    lemma_get(s.pool, id);
    lemma_put_keeps(s, id, WorkspaceModel { name: Some(name), ..w });
    lemma_find_from(s1.monitors, s1.held_on(id), 0);
    lemma_calm_still(s1, s1, o);
    if let Some(mon) = s1.monitor_holding(id) {
        let m = s1.monitors[mon];
        let v = s1.active_view(m.output.id);
        let top = m.empty_workspace_above_first && v is Some && v.unwrap().ids.len() > 0
            && v.unwrap().ids[0] == id;
        let bottom = v is Some && v.unwrap().ids.len() > 0 && v.unwrap().ids.last() == id;
        let s2 = if top {
            s1.add_workspace_top(mon)
        } else {
            s1
        };
        let s3 = if bottom {
            s2.add_workspace_bottom(mon)
        } else {
            s2
        };
        crate::bookends::lemma_mint_into_leads(s1, mon, s1.acts.active, 0);
        let n = match s2.active_view(m.output.id) {
            Some(v) => v.ids.len() as int,
            None => 0,
        };
        crate::bookends::lemma_mint_into_leads(s2, mon, s2.acts.active, n);
        crate::bookends::lemma_normalize_leads(s3);
        if top {
            lemma_mint_into(s1, mon, s1.acts.active, 0);
            lemma_mint_into_calm(s1, mon, s1.acts.active, 0, o);
        }
        assert(s2.monitors[mon].output == m.output);
        if bottom {
            if s2.active_view(m.output.id) is Some {
                lemma_mint_into(s2, mon, s2.acts.active, n);
                lemma_mint_into_calm(s2, mon, s2.acts.active, n, o);
                lemma_calm_trans(s1, s2, s3, o);
            }
        }
        assert(s3.coherent());
        law_normalize_adds_only(s3);
        lemma_normalize_mons_calm(s3, s3.monitors.len() as int, o);
        lemma_calm_trans(s1, s3, s3.normalize(), o);
    }
}

/// Giving a workspace a name that is free keeps the names of all workspaces on screen and waiting
/// apart.
pub proof fn law_naming_keeps_names_apart(s: LayoutModel, id: WorkspaceId, name: Seq<char>)
    requires
        s.coherent(),
        s.names_apart(),
        s.pool.has(id),
        s.named_workspace(name) is None,
        s.name_workspace(id, name).fits(),
    ensures
        s.name_workspace(id, name).names_apart(),
{
    let o = Output { id: OutputId(0), connector: OutputId(0) };
    let t = s.name_workspace(id, name);
    let s1 = s.labelled(id, name);
    law_naming_names_only(s, id, name);
    lemma_naming_calm(s, id, name, o);
    assert forall|x: WorkspaceId, y: WorkspaceId| #[trigger] t.in_sight(x) && #[trigger] t.in_sight(
        y,
    ) && x != y implies !namesakes(t.pool, x, y) by {
        if namesakes(t.pool, x, y) {
            lemma_named_in_sight(s, id, name, x);
            lemma_named_in_sight(s, id, name, y);
            assert(x != id ==> t.pool.get(x) == s.pool.get(x));
            assert(y != id ==> t.pool.get(y) == s.pool.get(y));
            if x == id {
                lemma_name_free(s, name, y);
            } else if y == id {
                lemma_name_free(s, name, x);
            } else {
                assert(!namesakes(s.pool, x, y));
            }
        }
    }
}

/// What has a name and is in sight once a workspace got one was in sight before.
pub proof fn lemma_named_in_sight(
    s: LayoutModel,
    id: WorkspaceId,
    name: Seq<char>,
    x: WorkspaceId,
)
    requires
        s.coherent(),
        s.pool.has(id),
        s.name_workspace(id, name).fits(),
        s.name_workspace(id, name).in_sight(x),
        name_of(s.name_workspace(id, name).pool, x) is Some,
    ensures
        s.in_sight(x),
        s.pool.has(x),
{
    let o = Output { id: OutputId(0), connector: OutputId(0) };
    let t = s.name_workspace(id, name);
    let s1 = s.labelled(id, name);
    let act = s.acts.active;
    lemma_naming_calm(s, id, name, o);
    lemma_get(s.pool, id);
    crate::coherence::lemma_get_put(
        s.pool,
        id,
        WorkspaceModel { name: Some(name), ..s.pool.get(id).unwrap() },
    );
    assert(t.pool.busy(x));
    assert(t.pool.busy(x) == s1.pool.busy(x));
    assert(s1.pool.has(x));
    if x != id {
        assert(s1.pool.get(x) == s.pool.get(x));
    }
    if !t.parked.contains(x) {
        let m = choose|m: int| 0 <= m < t.monitors.len() && #[trigger] t.on_monitor(m, x);
        let out = t.monitors[m].output.id;
        assert(s1.monitors[m].output == t.monitors[m].output);
        assert(kept_view(s1.pool, s1.view_of(act, out), t.view_of(act, out)));
        lemma_core_shows(s1.pool, s1.view_of(act, out), t.view_of(act, out), x);
        assert(s.on_monitor(m, x));
    }
}

/// The same workspaces with windows or a name in the same order are the same workspaces.
pub proof fn lemma_core_shows(pool: PoolModel, v: Option<ViewModel>, w: Option<ViewModel>, x: WorkspaceId)
    requires
        view_core(pool, v) == view_core(pool, w),
        pool.busy(x),
    ensures
        (v is Some && v.unwrap().ids.contains(x)) == (w is Some && w.unwrap().ids.contains(x)),
{
    if let Some(a) = v {
        crate::keeping_views::lemma_filter(a.ids, worth_keeping(pool));
    }
    if let Some(b) = w {
        crate::keeping_views::lemma_filter(b.ids, worth_keeping(pool));
    }
    assert(worth_keeping(pool)(x));
    assert((v is Some && v.unwrap().ids.contains(x)) == view_core(pool, v).contains(x));
    assert((w is Some && w.unwrap().ids.contains(x)) == view_core(pool, w).contains(x));
}

} // verus!
