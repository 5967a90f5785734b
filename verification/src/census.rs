//! Every window is in one place: on one workspace, once, or dragged by the user.

use vstd::prelude::*;

use crate::activity::ActivitiesModel;
use crate::coherence::{lemma_get, pool_ok};
use crate::ids::{ActivityId, OutputId, WindowId, WorkspaceId};
use crate::layout::LayoutModel;
use crate::monitor::{ActivitySwitch, Monitor};
use crate::pool::PoolModel;
use crate::steadying::{spares, steady};
use crate::workspace::{Output, Tile, WorkspaceModel};

verus! {

/// How often window `w` is among `tiles`.
pub open spec fn tiles_of(tiles: Seq<Tile>, w: WindowId) -> int
    decreases tiles.len(),
{
    if tiles.len() == 0 {
        0
    } else {
        tiles_of(tiles.drop_last(), w) + if tiles.last().window.id == w {
            1int
        } else {
            0
        }
    }
}

/// How often window `w` is on the workspaces `items`.
pub open spec fn tally(items: Seq<WorkspaceModel>, w: WindowId) -> int
    decreases items.len(),
{
    if items.len() == 0 {
        0
    } else {
        tally(items.drop_last(), w) + tiles_of(items.last().tiles, w)
    }
}

impl LayoutModel {
    /// How often window `w` is in the layout.
    pub open spec fn census(self, w: WindowId) -> int {
        tally(self.pool.items, w) + if self.is_dragged(w) {
            1int
        } else {
            0
        }
    }

    /// No window is in more than one place.
    pub open spec fn single(self) -> bool {
        forall|w: WindowId| #[trigger] self.census(w) <= 1
    }
}

impl LayoutModel {
    /// No window is in more than one place, and every monitor agrees with the layout and with the
    /// others on the overview and on sliding between activities.
    pub open spec fn orderly(self) -> bool {
        &&& self.single()
        &&& forall|m: int|
            0 <= m < self.monitors.len() ==> self.monitor_agrees(#[trigger] self.monitors[m])
        &&& self.slides_agree()
    }
}

/// What monitors show of the overview and of slides between activities.
pub open spec fn switches(ms: Seq<Monitor>) -> Seq<(bool, Option<ActivitySwitch>)> {
    Seq::new(ms.len(), |i: int| (ms[i].overview_open, ms[i].activity_switch))
}

/// What the monitors' agreement depends on.
pub open spec fn gist(s: LayoutModel) -> (
    Seq<(bool, Option<ActivitySwitch>)>,
    bool,
    Seq<ActivityId>,
    ActivityId,
) {
    (switches(s.monitors), s.overview_open, s.acts.ids(), s.acts.active)
}

/// A step that leads on leaves the monitors' agreement alone.
pub broadcast proof fn lemma_leads_gist(s: LayoutModel, t: LayoutModel)
    requires
        #[trigger] s.leads_to(t),
    ensures
        gist(t) == gist(s),
{
    assert(switches(t.monitors) =~= switches(s.monitors)) by {
        assert forall|i: int| 0 <= i < s.monitors.len() implies #[trigger] switches(t.monitors)[i]
            == switches(s.monitors)[i] by {
            assert(s.monitors[i].overview_open == t.monitors[i].overview_open);
        }
    }
}

/// The layout stays in order while the monitors' agreement is left alone and no window is added.
pub proof fn lemma_order(s: LayoutModel, t: LayoutModel)
    requires
        s.orderly(),
        gist(t) == gist(s),
        forall|w: WindowId| #[trigger] t.census(w) <= s.census(w),
    ensures
        t.orderly(),
{
    assert forall|w: WindowId| #[trigger] t.census(w) <= 1 by {
        assert(s.census(w) <= 1);
    }
    assert(t.monitors.len() == switches(t.monitors).len());
    assert(s.monitors.len() == switches(s.monitors).len());
    assert forall|m: int| 0 <= m < t.monitors.len() implies t.monitor_agrees(
        #[trigger] t.monitors[m],
    ) by {
        assert(switches(t.monitors)[m] == switches(s.monitors)[m]);
        assert(s.monitor_agrees(s.monitors[m]));
        if let Some(a) = s.monitors[m].activity_switch {
            lemma_has(s.acts, a.from);
            lemma_has(t.acts, a.from);
        }
    }
    assert(t.slides_agree()) by {
        assert forall|i: int, j: int|
            0 <= i < j < t.monitors.len() && (#[trigger] t.monitors[i]).activity_switch is Some && (
            #[trigger] t.monitors[j]).activity_switch is Some implies t.monitors[i].activity_switch
            == t.monitors[j].activity_switch by {
            assert(switches(t.monitors)[i] == switches(s.monitors)[i]);
            assert(switches(t.monitors)[j] == switches(s.monitors)[j]);
            assert(s.monitors[i].activity_switch is Some);
            assert(s.monitors[j].activity_switch is Some);
        }
    }
}

/// Which activities there are is a matter of their ids.
pub proof fn lemma_has(acts: ActivitiesModel, a: ActivityId)
    ensures
        acts.has(a) == acts.ids().contains(a),
{
    crate::coherence::lemma_act(acts, a);
    if let Some(i) = acts.pos(a) {
        assert(acts.ids()[i] == a);
    } else if acts.ids().contains(a) {
        let k = choose|k: int| 0 <= k < acts.ids().len() && acts.ids()[k] == a;
        assert(acts.list[k].id == a);
    }
}

/// `q` holds every window as often as `p`.
pub open spec fn same_load(p: PoolModel, q: PoolModel) -> bool {
    forall|w: WindowId| #[trigger] tally(q.items, w) == tally(p.items, w)
}

/// Windows do not occur less than never.
pub proof fn lemma_tiles_of(tiles: Seq<Tile>, w: WindowId)
    ensures
        tiles_of(tiles, w) >= 0,
        tiles_of(tiles, w) > 0 <==> exists|i: int|
            0 <= i < tiles.len() && (#[trigger] tiles[i]).window.id == w,
    decreases tiles.len(),
{
    if tiles.len() > 0 {
        let rest = tiles.drop_last();
        lemma_tiles_of(rest, w);
        if tiles_of(rest, w) > 0 {
            let i = choose|i: int| 0 <= i < rest.len() && (#[trigger] rest[i]).window.id == w;
            assert(tiles[i].window.id == w);
        }
        if tiles.last().window.id == w {
            assert(tiles[tiles.len() - 1].window.id == w);
        }
        if exists|i: int| 0 <= i < tiles.len() && (#[trigger] tiles[i]).window.id == w {
            let i = choose|i: int| 0 <= i < tiles.len() && (#[trigger] tiles[i]).window.id == w;
            if i < rest.len() {
                assert(rest[i].window.id == w);
            }
        }
    }
}

/// Windows do not occur less than never.
pub proof fn lemma_tally(items: Seq<WorkspaceModel>, w: WindowId)
    ensures
        tally(items, w) >= 0,
        tally(items, w) > 0 <==> exists|i: int|
            0 <= i < items.len() && tiles_of((#[trigger] items[i]).tiles, w) > 0,
    decreases items.len(),
{
    if items.len() > 0 {
        let rest = items.drop_last();
        lemma_tally(rest, w);
        lemma_tiles_of(items.last().tiles, w);
        if tally(rest, w) > 0 {
            let i = choose|i: int|
                0 <= i < rest.len() && tiles_of((#[trigger] rest[i]).tiles, w) > 0;
            assert(tiles_of(items[i].tiles, w) > 0);
        }
        if tiles_of(items.last().tiles, w) > 0 {
            assert(tiles_of(items[items.len() - 1].tiles, w) > 0);
        }
        if exists|i: int| 0 <= i < items.len() && tiles_of((#[trigger] items[i]).tiles, w) > 0 {
            let i = choose|i: int|
                0 <= i < items.len() && tiles_of((#[trigger] items[i]).tiles, w) > 0;
            if i < rest.len() {
                assert(tiles_of(rest[i].tiles, w) > 0);
            }
        }
    }
}

/// Changing one workspace changes the count by what it holds.
pub proof fn lemma_update_tally(items: Seq<WorkspaceModel>, i: int, x: WorkspaceModel, w: WindowId)
    requires
        0 <= i < items.len(),
    ensures
        tally(items.update(i, x), w) == tally(items, w) - tiles_of(items[i].tiles, w) + tiles_of(
            x.tiles,
            w,
        ),
    decreases items.len(),
{
    let rest = items.drop_last();
    let new = items.update(i, x);
    if i < rest.len() {
        lemma_update_tally(rest, i, x, w);
        assert(new.drop_last() =~= rest.update(i, x));
    } else {
        assert(new.drop_last() =~= rest);
    }
}

/// Taking a workspace out takes out what it holds.
pub proof fn lemma_remove_tally(items: Seq<WorkspaceModel>, i: int, w: WindowId)
    requires
        0 <= i < items.len(),
    ensures
        tally(items.remove(i), w) == tally(items, w) - tiles_of(items[i].tiles, w),
    decreases items.len(),
{
    let rest = items.drop_last();
    let new = items.remove(i);
    if i < rest.len() {
        lemma_remove_tally(rest, i, w);
        assert(new.drop_last() =~= rest.remove(i));
        assert(new.last() == items.last());
    } else {
        assert(new =~= rest);
    }
}

/// Putting a workspace back changes the count by what it holds.
pub broadcast proof fn lemma_put_tally(p: PoolModel, id: WorkspaceId, x: WorkspaceModel, w: WindowId)
    ensures
        #[trigger] tally(p.put(id, x).items, w) == tally(p.items, w) + match p.get(id) {
            Some(old) => tiles_of(x.tiles, w) - tiles_of(old.tiles, w),
            None => 0,
        },
{
    lemma_get(p, id);
    if let Some(i) = p.pos(id) {
        lemma_update_tally(p.items, i, x, w);
    }
}

/// Taking a workspace out takes out what it holds.
pub broadcast proof fn lemma_pool_remove_tally(p: PoolModel, id: WorkspaceId, w: WindowId)
    ensures
        #[trigger] tally(p.remove(id).items, w) == tally(p.items, w) - match p.get(id) {
            Some(old) => tiles_of(old.tiles, w),
            None => 0,
        },
        tally(p.remove(id).items, w) <= tally(p.items, w),
{
    lemma_get(p, id);
    if let Some(i) = p.pos(id) {
        lemma_remove_tally(p.items, i, w);
        lemma_tiles_of(p.items[i].tiles, w);
    }
}

/// A workspace added adds what it holds.
pub broadcast proof fn lemma_push_tally(items: Seq<WorkspaceModel>, x: WorkspaceModel, w: WindowId)
    ensures
        #[trigger] tally(items.push(x), w) == tally(items, w) + tiles_of(x.tiles, w),
{
    assert(items.push(x).drop_last() =~= items);
}

/// Workspaces that hold the same windows as often hold them as often together.
pub proof fn lemma_same_tally(a: Seq<WorkspaceModel>, b: Seq<WorkspaceModel>, w: WindowId)
    requires
        a.len() == b.len(),
        forall|i: int|
            0 <= i < a.len() ==> tiles_of((#[trigger] a[i]).tiles, w) == tiles_of(b[i].tiles, w),
    ensures
        tally(a, w) == tally(b, w),
    decreases a.len(),
{
    if a.len() > 0 {
        let c = a.drop_last();
        let d = b.drop_last();
        assert forall|i: int| 0 <= i < c.len() implies tiles_of((#[trigger] c[i]).tiles, w)
            == tiles_of(d[i].tiles, w) by {
            assert(tiles_of(a[i].tiles, w) == tiles_of(b[i].tiles, w));
        }
        lemma_same_tally(c, d, w);
        assert(tiles_of(a[a.len() - 1].tiles, w) == tiles_of(b[b.len() - 1].tiles, w));
    }
}

/// Pools that hold the same work hold every window as often.
pub proof fn lemma_spares_tally(p: PoolModel, q: PoolModel, o: Output, w: WindowId)
    requires
        pool_ok(p),
        pool_ok(q),
        spares(p, q, o),
    ensures
        tally(p.items, w) == tally(q.items, w),
    decreases p.items.len() + q.items.len(),
{
    if p.items.len() == 0 && q.items.len() == 0 {
    } else if p.items.len() > 0 && !p.items.last().busy() {
        let r = PoolModel { items: p.items.drop_last(), ..p };
        lemma_drop_last(p);
        assert(spares(r, q, o)) by {
            assert forall|x: WorkspaceId| #[trigger] q.busy(x) implies r.busy(x) by {
                assert(p.busy(x));
            }
            assert forall|x: WorkspaceId| #[trigger] r.busy(x) implies q.busy(x)
                && crate::cores::kin(r.get(x).unwrap(), q.get(x).unwrap()) && (
            crate::connect::bound_for(r, x, o) ==> crate::connect::bound_for(q, x, o)) by {
                assert(p.busy(x));
            }
        }
        lemma_spares_tally(r, q, o, w);
    } else if q.items.len() > 0 && !q.items.last().busy() {
        let r = PoolModel { items: q.items.drop_last(), ..q };
        lemma_drop_last(q);
        assert(spares(p, r, o)) by {
            assert forall|x: WorkspaceId| #[trigger] r.busy(x) implies p.busy(x) by {
                assert(q.busy(x));
            }
            assert forall|x: WorkspaceId| #[trigger] p.busy(x) implies r.busy(x)
                && crate::cores::kin(p.get(x).unwrap(), r.get(x).unwrap()) && (
            crate::connect::bound_for(p, x, o) ==> crate::connect::bound_for(r, x, o)) by {
                assert(q.busy(x));
            }
        }
        lemma_spares_tally(p, r, o, w);
    } else {
        lemma_last_busy(p, q, o);
        let a = PoolModel { items: p.items.drop_last(), ..p };
        let b = PoolModel { items: q.items.drop_last(), ..q };
        lemma_drop_last(p);
        lemma_drop_last(q);
        let id = p.items.last().id;
        assert(p.busy(id));
        assert(spares(a, b, o)) by {
            assert forall|x: WorkspaceId| #[trigger] b.busy(x) implies a.busy(x) by {
                assert(q.busy(x));
                assert(p.busy(x));
            }
            assert forall|x: WorkspaceId| #[trigger] a.busy(x) implies b.busy(x)
                && crate::cores::kin(a.get(x).unwrap(), b.get(x).unwrap()) && (
            crate::connect::bound_for(a, x, o) ==> crate::connect::bound_for(b, x, o)) by {
                assert(p.busy(x));
                assert(q.busy(x));
            }
        }
        lemma_spares_tally(a, b, o, w);
    }
}

/// Without its last workspace a pool is in order and answers for the others alike.
pub proof fn lemma_drop_last(p: PoolModel)
    requires
        pool_ok(p),
        p.items.len() > 0,
    ensures
        pool_ok(PoolModel { items: p.items.drop_last(), ..p }),
        p.get(p.items.last().id) == Some(p.items.last()),
        forall|x: WorkspaceId| #[trigger]
            (PoolModel { items: p.items.drop_last(), ..p }).get(x) == if x == p.items.last().id {
                None
            } else {
                p.get(x)
            },
{
    let r = PoolModel { items: p.items.drop_last(), ..p };
    let n = p.items.len() - 1;
    assert forall|i: int, j: int| 0 <= i < j < r.items.len() implies (#[trigger] r.items[i]).id.0 < (
    #[trigger] r.items[j]).id.0 by {
        assert(p.items[i].id.0 < p.items[j].id.0);
    }
    assert forall|i: int| 0 <= i < r.items.len() implies (#[trigger] r.items[i]).id.0 < r.next by {
        assert(p.items[i].id.0 < p.next);
    }
    lemma_get(p, p.items.last().id);
    crate::coherence::lemma_pos_of(p, n);
    assert forall|x: WorkspaceId| #[trigger] r.get(x) == if x == p.items.last().id {
        None
    } else {
        p.get(x)
    } by {
        lemma_get(p, x);
        lemma_get(r, x);
        if let Some(i) = r.pos(x) {
            assert(p.items[i].id == x);
            crate::coherence::lemma_pos_of(p, i);
            assert(p.items[i].id.0 < p.items[n].id.0);
        } else if let Some(i) = p.pos(x) {
            if i < n {
                assert(r.items[i].id == x);
            }
        }
    }
}

/// Two pools with the same work that both end with a busy workspace end with the same one.
pub proof fn lemma_last_busy(p: PoolModel, q: PoolModel, o: Output)
    requires
        pool_ok(p),
        pool_ok(q),
        spares(p, q, o),
        p.items.len() > 0 || q.items.len() > 0,
        p.items.len() > 0 ==> p.items.last().busy(),
        q.items.len() > 0 ==> q.items.last().busy(),
    ensures
        p.items.len() > 0,
        q.items.len() > 0,
        p.items.last().id == q.items.last().id,
        p.items.last().tiles == q.items.last().tiles,
{
    if p.items.len() > 0 {
        lemma_drop_last(p);
        assert(p.busy(p.items.last().id));
        assert(q.busy(p.items.last().id));
        lemma_get(q, p.items.last().id);
    }
    if q.items.len() > 0 {
        lemma_drop_last(q);
        assert(q.busy(q.items.last().id));
        assert(p.busy(q.items.last().id));
        lemma_get(p, q.items.last().id);
    }
    let i = q.pos(p.items.last().id).unwrap();
    let j = p.pos(q.items.last().id).unwrap();
    if i < q.items.len() - 1 {
        assert(q.items[i].id.0 < q.items[q.items.len() - 1].id.0);
    }
    if j < p.items.len() - 1 {
        assert(p.items[j].id.0 < p.items[p.items.len() - 1].id.0);
    }
}

/// A steady step moves no window.
pub proof fn lemma_steady_load(s: LayoutModel, t: LayoutModel, o: Output)
    requires
        s.staffed(),
        steady(s, t, o),
    ensures
        same_load(s.pool, t.pool),
{
    assert forall|w: WindowId| #[trigger] tally(t.pool.items, w) == tally(s.pool.items, w) by {
        lemma_spares_tally(s.pool, t.pool, o, w);
    }
}

/// Mending leaves the layout in order.
pub proof fn lemma_mended_order(s: LayoutModel)
    requires
        s.staffed(),
        s.mended().fits(),
    ensures
        s.orderly() ==> s.mended().orderly(),
{
    lemma_mended_load(s);
    crate::mending::lemma_mended_leads(s);
    if s.orderly() {
        let t = s.mended();
        assert(gist(t) == gist(s)) by {
            assert(switches(t.monitors) =~= switches(s.monitors)) by {
                assert forall|i: int|
                    0 <= i < s.monitors.len() implies #[trigger] switches(t.monitors)[i]
                    == switches(s.monitors)[i] by {
                    assert(s.monitors[i].overview_open == t.monitors[i].overview_open);
                }
            }
        }
        assert forall|w: WindowId| #[trigger] t.census(w) <= s.census(w) by {
            assert(tally(t.pool.items, w) == tally(s.pool.items, w));
        }
        lemma_order(s, t);
    }
}

/// Mending moves no window.
pub proof fn lemma_mended_load(s: LayoutModel)
    requires
        s.staffed(),
        s.mended().fits(),
    ensures
        same_load(s.pool, s.mended().pool),
{
    let a = s.straightened();
    let o = Output { id: OutputId(0), connector: OutputId(0) };
    crate::wholeness::lemma_straightened(s);
    crate::mending::lemma_straightened_leads(s);
    assert(a.straightened() == a) by {
        assert forall|i: int| 0 <= i < a.pool.items.len() implies #[trigger] a.straightened().pool.items[i]
            == a.pool.items[i] by {
            assert(a.pool.items[i].activities.no_duplicates());
            crate::wholeness::lemma_distinct_once(a.pool.items[i].activities);
        }
        assert(a.straightened().pool.items =~= a.pool.items);
    }
    crate::returning::lemma_mended_steady(a, o);
    lemma_steady_load(a, a.mended(), o);
    assert forall|w: WindowId| #[trigger] tally(a.pool.items, w) == tally(s.pool.items, w) by {
        lemma_same_tally(a.pool.items, s.pool.items, w);
    }
    assert forall|w: WindowId| #[trigger] tally(s.mended().pool.items, w) == tally(
        s.pool.items,
        w,
    ) by {
        assert(tally(a.pool.items, w) == tally(s.pool.items, w));
        assert(tally(a.mended().pool.items, w) == tally(a.pool.items, w));
    }
}

} // verus!
