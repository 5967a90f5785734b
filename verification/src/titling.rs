//! Naming a workspace names that one, and taking a name away takes it from that one.

use vstd::prelude::*;

use crate::coherence::{lemma_get, lemma_get_put, lemma_get_remove};
use crate::finding::bears;
use crate::ids::{ActivityId, OutputId, WorkspaceId};
use crate::layout::LayoutModel;
use crate::lookup::WorkspaceReference;
use crate::persisting::lemma_mended_work;
use crate::search::{equal_to, find, lemma_find_from};
use crate::workspace::WorkspaceModel;

verus! {

/// Workspace `x` has the same windows, the same active one and the same activities in `t` as in `s`.
pub open spec fn same_inside(s: LayoutModel, t: LayoutModel, x: WorkspaceId) -> bool {
    &&& t.pool.has(x)
    &&& t.pool.get(x).unwrap().tiles == s.pool.get(x).unwrap().tiles
    &&& t.pool.get(x).unwrap().active == s.pool.get(x).unwrap().active
    &&& t.pool.get(x).unwrap().sticky == s.pool.get(x).unwrap().sticky
    &&& forall|a: ActivityId| #[trigger] t.pool.member(x, a) == s.pool.member(x, a)
}

/// Naming gives the name to the workspace that was referred to, and to no other, and changes nothing
/// else that is in use. Where a workspace that the active activity shows, or one that waits, has the
/// name already, nothing changes.
pub proof fn law_naming_names_what_is_referred_to(
    s: LayoutModel,
    name: Seq<char>,
    r: Option<WorkspaceReference>,
    id: WorkspaceId,
)
    requires
        s.whole(),
        s.set_workspace_name(name, r).mended().fits(),
        s.referred_or_active(r) == Some(id),
    ensures
        ({
            let t = s.set_workspace_name(name, r).mended();
            let taken = (exists|o: OutputId, y: WorkspaceId| #[trigger]
                s.shows_on(s.acts.active, o, y) && bears(s, y, name)) || (exists|i: int|
                0 <= i < s.parked.len() && bears(s, #[trigger] s.parked[i], name));
            &&& taken ==> t == s
            &&& !taken ==> {
                &&& t.pool.get(id).unwrap().name == Some(name)
                &&& same_inside(s, t, id)
                &&& forall|x: WorkspaceId| #[trigger]
                    s.pool.busy(x) && x != id ==> same_inside(s, t, x) && t.pool.get(x).unwrap().name
                        == s.pool.get(x).unwrap().name
            }
        }),
{
    let b = s.set_workspace_name(name, r);
    let t = b.mended();
    crate::finding::law_name_finds_its_workspace(s, name);
    crate::wholeness::law_mending_is_idle(s);
    crate::mending::lemma_mended_leads(b);
    if s.named_workspace(name) is None {
        assert(s.pool.has(id)) by {
            lemma_referred_exists(s, r);
        }
        crate::upholding::law_naming_names_only(s, id, name);
        lemma_mended_work(b);
        assert(b.pool.busy(id));
        assert forall|x: WorkspaceId| #[trigger] s.pool.busy(x) && x != id implies same_inside(
            s,
            t,
            x,
        ) && t.pool.get(x).unwrap().name == s.pool.get(x).unwrap().name by {
            assert(s.pool.has(x));
            assert(b.pool.get(x) == s.pool.get(x));
            assert(b.pool.busy(x));
        }
    } else {
        let (i, x) = s.named_workspace(name).unwrap();
        if 0 <= i < s.parked.len() && s.parked[i] == x {
            assert(bears(s, s.parked[i], name));
        }
    }
}

/// What a reference finds is there.
pub proof fn lemma_referred_exists(s: LayoutModel, r: Option<WorkspaceReference>)
    requires
        s.coherent(),
    ensures
        match s.referred_or_active(r) {
            Some(id) => s.pool.has(id),
            None => true,
        },
{
    if let Some(WorkspaceReference::Name(name)) = r {
        let p = crate::lookup::by_name(name@);
        lemma_find_from(s.pool.items, p, 0);
        if let Some(i) = find(s.pool.items, p) {
            crate::coherence::lemma_pos_of(s.pool, i);
        }
    }
}

/// A workspace that the active activity shows, or that waits, and that loses its name keeps its
/// windows. Without windows it is no longer in use. Nothing else that is in use changes.
pub proof fn law_unnaming_takes_the_name_away(s: LayoutModel, id: WorkspaceId)
    requires
        s.whole(),
        s.unname(id).mended().fits(),
        (exists|o: OutputId| #[trigger] s.shows_on(s.acts.active, o, id)) || s.parked.contains(id),
    ensures
        ({
            let t = s.unname(id).mended();
            &&& s.pool.get(id).unwrap().tiles.len() > 0 ==> same_inside(s, t, id) && t.pool.get(
                id,
            ).unwrap().name is None
            &&& s.pool.get(id).unwrap().tiles.len() == 0 ==> !t.pool.busy(id)
            &&& forall|x: WorkspaceId| #[trigger]
                s.pool.busy(x) && x != id ==> same_inside(s, t, x) && t.pool.get(x).unwrap().name
                    == s.pool.get(x).unwrap().name
        }),
{
    let b = s.unname(id);
    let t = b.mended();
    let p = s.pool.set_name(id, None);
    let c = LayoutModel { pool: p, ..s };
    crate::mending::lemma_mended_leads(b);
    crate::lasting::lemma_waits_unseen(s);
    crate::upholding::law_unnaming_keeps_coherence(s, id);
    lemma_get(s.pool, id);
    crate::finding::law_workspace_is_found_on_its_monitor(s, id, 0);
    assert(s.pool.has(id)) by {
        if s.parked.contains(id) {
            let i = choose|i: int| 0 <= i < s.parked.len() && s.parked[i] == id;
            assert(s.pool.busy(s.parked[i]));
        } else {
            let o = choose|o: OutputId| #[trigger] s.shows_on(s.acts.active, o, id);
            crate::coherence::lemma_view_is_ok(s, s.acts.active, o);
            assert(s.pool.member(id, s.acts.active));
        }
    }
    let w = s.pool.get(id).unwrap();
    let u = WorkspaceModel { name: None, ..w };
    lemma_get_put(s.pool, id, u);
    crate::carrying::lemma_put_keeps(s, id, u);
    assert(p.get(id) == Some(u));
    if s.monitor_showing(id) is None {
        lemma_find_from(s.parked, equal_to(id), 0);
        assert(find(s.parked, equal_to(id)) is Some) by {
            let i = choose|i: int| 0 <= i < s.parked.len() && s.parked[i] == id;
            assert(equal_to(id)(s.parked[i]));
        }
    }
    assert forall|x: WorkspaceId| #[trigger] b.pool.busy(x) implies p.busy(x) && b.pool.get(x)
        == p.get(x) by {
        match s.monitor_showing(id) {
            Some(mon) => {
                lemma_find_from(s.monitors, s.showing(id), 0);
                crate::keeping_views::lemma_clean_up(c, mon);
                assert(b.pool.has(x));
            },
            None => {
                lemma_get_remove(p, id);
                if x == id {
                    lemma_get(p.remove(id), id);
                }
            },
        }
    }
    assert forall|x: WorkspaceId| #[trigger] p.busy(x) implies b.pool.get(x) == p.get(x) by {
        match s.monitor_showing(id) {
            Some(mon) => {
                lemma_find_from(s.monitors, s.showing(id), 0);
                crate::keeping_views::lemma_clean_up(c, mon);
                assert(c.pool.busy(x));
            },
            None => {
                lemma_get_remove(p, id);
            },
        }
    }
    lemma_mended_work(b);
    if w.tiles.len() > 0 {
        assert(p.busy(id));
        assert(b.pool.busy(id));
    } else {
        assert(!p.busy(id));
        assert(!b.pool.busy(id));
    }
    assert forall|x: WorkspaceId| #[trigger] s.pool.busy(x) && x != id implies same_inside(s, t, x)
        && t.pool.get(x).unwrap().name == s.pool.get(x).unwrap().name by {
        assert(p.get(x) == s.pool.get(x));
        assert(p.busy(x));
        assert(b.pool.busy(x));
    }
}

} // verus!
