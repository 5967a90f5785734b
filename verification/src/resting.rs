//! Operations that leave every workspace where it is keep the layout whole and in order.

use vstd::prelude::*;

use crate::census::{lemma_put_tally, lemma_same_tally, switches, tally, tiles_of};
use crate::changing::lists_once;
use crate::coherence::{alike, lemma_get};
use crate::gestures::Reached;
use crate::ids::{OutputId, WindowId, WorkspaceId};
use crate::lasting::{lemma_same_layout, level};
use crate::layout::{
    InteractiveMoveData, InteractiveMoveState, LayoutModel, Options, OverviewProgress,
};
use crate::load::{lemma_lock_load, lemma_same_tiles};
use crate::ordering::{lemma_orders, lemma_overview_order, lemma_swipe_order, orders};
use crate::pool::PoolModel;
use crate::search::lemma_find_from;
use crate::upholding::lemma_frame;
use crate::workspace::Output;

verus! {

/// `q` holds the same workspaces as `p`, with the same name and activities and as many windows.
pub open spec fn retouched(p: PoolModel, q: PoolModel) -> bool {
    &&& alike(p, q)
    &&& forall|i: int|
        0 <= i < p.items.len() ==> (#[trigger] p.items[i]).name == q.items[i].name
            && p.items[i].tiles.len() == q.items[i].tiles.len()
}

/// Retouching twice is retouching.
pub proof fn lemma_retouched_trans(p: PoolModel, q: PoolModel, r: PoolModel)
    requires
        retouched(p, q),
        retouched(q, r),
    ensures
        retouched(p, r),
{
    assert forall|i: int| 0 <= i < p.items.len() implies (#[trigger] p.items[i]).id == r.items[i].id
        && p.items[i].activities == r.items[i].activities && p.items[i].name == r.items[i].name
        && p.items[i].tiles.len() == r.items[i].tiles.len() by {
        assert(q.items[i].id == p.items[i].id);
    }
}

/// `t` has the same activities, views and outputs as `s`, and its workspaces were at most
/// retouched.
pub open spec fn at_rest(s: LayoutModel, t: LayoutModel) -> bool {
    &&& retouched(s.pool, t.pool)
    &&& t.acts == s.acts
    &&& t.parked == s.parked
    &&& level(s, t)
    &&& forall|i: int|
        0 <= i < s.monitors.len() ==> (#[trigger] s.monitors[i]).empty_workspace_above_first
            == t.monitors[i].empty_workspace_above_first
    &&& t.pointed()
}

/// A layout that differs from a whole one only in what is at rest is whole.
pub proof fn lemma_at_rest(s: LayoutModel, t: LayoutModel)
    requires
        s.whole(),
        at_rest(s, t),
    ensures
        t.whole(),
{
    let u = LayoutModel { pool: t.pool, ..s };
    lemma_frame(s, u);
    assert forall|x: WorkspaceId|
        #![trigger u.pool.busy(x)]
        #![trigger u.pool.has(x)]
        u.pool.busy(x) == s.pool.busy(x) && u.pool.has(x) == s.pool.has(x) by {
        lemma_get(s.pool, x);
        lemma_get(u.pool, x);
        if let Some(i) = s.pool.pos(x) {
            assert(s.pool.items[i].id == u.pool.items[i].id);
            assert(s.pool.items[i].name == u.pool.items[i].name);
            let j = u.pool.pos(x).unwrap();
            assert(s.pool.items[j].id == u.pool.items[j].id);
            assert(i == j);
        } else if let Some(j) = u.pool.pos(x) {
            assert(s.pool.items[j].id == u.pool.items[j].id);
        }
    }
    crate::coherence::lemma_alike(s.pool, u.pool);
    assert(u.whole()) by {
        assert forall|i: int, m: int|
            0 <= i < u.acts.list.len() && 0 <= m
                < u.monitors.len() implies #[trigger] u.ends_empty(u.acts.list[i].id, m) by {
            assert(s.ends_empty(s.acts.list[i].id, m));
        }
        assert(u.complete()) by {
            assert(s.complete());
        }
        assert forall|a: crate::ids::ActivityId, o: OutputId| #[trigger]
            u.view_of(a, o) == s.view_of(a, o) by {}
        assert forall|a: crate::ids::ActivityId, o: OutputId, x: WorkspaceId| #[trigger]
            u.shows_on(a, o, x) == s.shows_on(a, o, x) by {}
        assert forall|a: crate::ids::ActivityId, o: OutputId| #[trigger]
            u.view_of(a, o) is Some implies u.monitor_pos(o) is Some by {
            assert(s.view_of(a, o) is Some);
            assert(s.monitor_pos(o) is Some);
        }
        assert forall|x: WorkspaceId, a: crate::ids::ActivityId| #[trigger]
            u.pool.member(x, a) && u.monitors.len() > 0 implies exists|b: OutputId| u.shows_on(
            a,
            b,
            x,
        ) by {
            assert(s.pool.member(x, a));
            let b = choose|b: OutputId| s.shows_on(a, b, x);
            assert(u.shows_on(a, b, x));
        }
        assert(lists_once(u.pool)) by {
            assert forall|i: int| 0 <= i < u.pool.items.len() implies (
            #[trigger] u.pool.items[i]).activities.no_duplicates() by {
                assert(s.pool.items[i].activities.no_duplicates());
            }
        }
        assert(u.waits_orderly()) by {
            assert forall|i: int| 0 <= i < u.parked.len() implies u.pool.busy(
                #[trigger] u.parked[i],
            ) by {
                assert(s.pool.busy(s.parked[i]));
            }
        }
    }
    lemma_same_layout(u, t);
}

/// Focusing an output keeps the layout whole and in order.
pub proof fn law_focusing_an_output_keeps_whole(s: LayoutModel, out: OutputId)
    requires
        s.whole(),
    ensures
        s.focus_output(out).whole(),
        s.orderly() ==> s.focus_output(out).orderly(),
{
    lemma_orders(s, s.focus_output(out));
    lemma_find_from(s.monitors, crate::layout::on_output(out), 0);
    lemma_at_rest(s, s.focus_output(out));
}

/// New options alone keep the layout whole and in order.
pub proof fn law_new_options_keep_whole(s: LayoutModel, options: Options)
    requires
        s.whole(),
    ensures
        (LayoutModel { options, ..s }).whole(),
        s.orderly() ==> (LayoutModel { options, ..s }).orderly(),
{
    lemma_orders(s, LayoutModel { options, ..s });
    lemma_at_rest(s, LayoutModel { options, ..s });
}

/// Grabbing a window keeps the layout whole and in order.
pub proof fn law_grabbing_keeps_whole(s: LayoutModel, w: WindowId)
    requires
        s.whole(),
    ensures
        s.begin_move(w).whole(),
        s.orderly() ==> s.begin_move(w).orderly(),
{
    let t = s.begin_move(w);
    assert(switches(t.monitors) =~= switches(s.monitors));
    assert forall|u: WindowId| #[trigger] t.census(u) <= s.census(u) by {
        lemma_lock_load(s.pool, true, u);
    }
    lemma_orders(s, t);
    lemma_at_rest(s, s.begin_move(w));
}

/// Dragging something over an output, and ending that, keeps the layout whole and in order.
pub proof fn law_drag_and_drop_keeps_whole(s: LayoutModel, output: Output)
    requires
        s.whole(),
    ensures
        s.dnd_over(output).whole(),
        s.dnd_done().whole(),
        s.orderly() ==> s.dnd_over(output).orderly() && s.dnd_done().orderly(),
{
    assert(switches(s.dnd_over(output).monitors) =~= switches(s.monitors));
    assert(switches(s.dnd_done().monitors) =~= switches(s.monitors));
    assert forall|w: WindowId|
        s.dnd_over(output).census(w) == s.census(w) && #[trigger] s.dnd_done().census(w)
            == s.census(w) by {
        lemma_lock_load(s.pool, true, w);
        lemma_lock_load(s.pool, false, w);
    }
    lemma_orders(s, s.dnd_over(output));
    lemma_orders(s, s.dnd_done());
    lemma_at_rest(s, s.dnd_over(output));
    lemma_at_rest(s, s.dnd_done());
}

/// Opening and closing the overview keeps the layout whole and in order.
pub proof fn law_overview_keeps_whole(s: LayoutModel, open: bool, progress: OverviewProgress)
    requires
        s.whole(),
    ensures
        s.show_overview(open, progress).whole(),
        s.disarm().show_overview(open, progress).whole(),
        s.orderly() ==> s.disarm().show_overview(open, progress).orderly(),
        s.orderly() && (open ==> s.overview_open) ==> s.show_overview(open, progress).orderly(),
{
    lemma_overview_order(s, open, progress);
    if open ==> s.overview_open {
        lemma_reshow_order(s, open, progress);
    }
    lemma_at_rest(s, s.show_overview(open, progress));
    lemma_at_rest(s, s.disarm().show_overview(open, progress));
}

/// Ending animations keeps the layout whole and in order.
pub proof fn law_ending_animations_keeps_whole(s: LayoutModel)
    requires
        s.whole(),
    ensures
        s.disarm().whole(),
        s.disarm_stale().whole(),
        s.snap_all().whole(),
        s.orderly()
            ==> s.disarm().orderly() && s.disarm_stale().orderly() && s.snap_all().orderly(),
{
    if s.orderly() {
        lemma_ending_order(s);
    }
    lemma_at_rest(s, s.disarm());
    lemma_at_rest(s, s.disarm_stale());
    lemma_at_rest(s, s.snap_all());
}

/// Letting a dragged window float or not keeps the layout whole and in order.
pub proof fn law_floating_keeps_whole(s: LayoutModel, d: InteractiveMoveData, floating: bool)
    requires
        s.whole(),
    ensures
        s.float_dragged(d, floating).whole(),
        s.orderly() && s.moving == Some(InteractiveMoveState::Moving(d)) ==> s.float_dragged(
            d,
            floating,
        ).orderly(),
{
    if s.moving == Some(InteractiveMoveState::Moving(d)) {
        let t = s.float_dragged(d, floating);
        assert forall|w: WindowId| #[trigger] t.census(w) <= s.census(w) by {
            lemma_lock_load(s.pool, !floating, w);
        }
        lemma_orders(s, t);
    }
    lemma_at_rest(s, s.float_dragged(d, floating));
}

/// Swiping on between workspaces keeps the layout whole and in order.
pub proof fn law_swiping_on_keeps_whole(s: LayoutModel, m: int, reached: Reached, is_touchpad: bool)
    requires
        s.whole(),
        0 <= m < s.monitors.len(),
    ensures
        s.swipe(m, reached, is_touchpad).whole(),
        s.orderly() ==> s.swipe(m, reached, is_touchpad).orderly(),
{
    lemma_swipe_order(s, m, reached, is_touchpad);
    lemma_orders(s, s.swipe(m, reached, is_touchpad));
    lemma_at_rest(s, s.swipe(m, reached, is_touchpad));
}

/// A window that covers its workspace or no longer does keeps the layout whole and in order.
pub proof fn law_covering_keeps_whole(s: LayoutModel, w: WindowId)
    requires
        s.whole(),
    ensures
        s.unwindow(w).whole(),
        s.flip_windowed(w).whole(),
        s.orderly() ==> s.unwindow(w).orderly() && s.flip_windowed(w).orderly(),
{
    lemma_covering_order(s, w);
    lemma_orders(s, s.unwindow(w));
    lemma_orders(s, s.flip_windowed(w));
    lemma_at_rest(s, s.unwindow(w));
    lemma_at_rest(s, s.flip_windowed(w));
}

/// Leaving the overview open, or closing it, keeps the layout in order.
pub proof fn lemma_reshow_order(s: LayoutModel, open: bool, progress: OverviewProgress)
    requires
        open ==> s.overview_open,
    ensures
        s.orderly() ==> s.show_overview(open, progress).orderly(),
{
    let t = s.show_overview(open, progress);
    if s.orderly() {
        assert forall|w: WindowId| #[trigger] t.census(w) <= 1 by {
            assert(s.census(w) <= 1);
        }
        assert forall|m: int| 0 <= m < t.monitors.len() implies t.monitor_agrees(
            #[trigger] t.monitors[m],
        ) by {
            assert(s.monitor_agrees(s.monitors[m]));
        }
        assert forall|i: int, j: int|
            0 <= i < j < t.monitors.len() && (#[trigger] t.monitors[i]).activity_switch is Some && (
            #[trigger] t.monitors[j]).activity_switch is Some implies t.monitors[i].activity_switch
            == t.monitors[j].activity_switch by {
            assert(s.monitors[i].activity_switch is Some);
            assert(s.monitors[j].activity_switch is Some);
        }
    }
}

/// Ending animations keeps the layout in order.
pub proof fn lemma_ending_order(s: LayoutModel)
    requires
        s.orderly(),
    ensures
        s.disarm().orderly(),
        s.disarm_stale().orderly(),
        s.snap_all().orderly(),
{
    let a = s.disarm();
    assert forall|w: WindowId| #[trigger] a.census(w) <= 1 by {
        assert(s.census(w) <= 1);
    }
    assert forall|m: int| 0 <= m < a.monitors.len() implies a.monitor_agrees(
        #[trigger] a.monitors[m],
    ) by {
        assert(s.monitor_agrees(s.monitors[m]));
    }
    let b = s.disarm_stale();
    assert(switches(b.monitors) =~= switches(s.monitors)) by {
        assert forall|i: int| 0 <= i < s.monitors.len() implies #[trigger] switches(b.monitors)[i]
            == switches(s.monitors)[i] by {
            assert(s.monitor_agrees(s.monitors[i]));
        }
    }
    lemma_orders(s, b);
    let c = s.snap_all();
    assert(switches(c.monitors) =~= switches(s.monitors));
    lemma_orders(s, c);
}

/// A window that covers its workspace or no longer does is in the same place.
pub proof fn lemma_covering_order(s: LayoutModel, w: WindowId)
    ensures
        orders(s, s.unwindow(w)),
        orders(s, s.flip_windowed(w)),
{
    let a = s.unwindow(w);
    let b = s.flip_windowed(w);
    assert forall|u: WindowId| #[trigger] a.census(u) <= s.census(u) by {
        assert forall|i: int| 0 <= i < s.pool.items.len() implies tiles_of(
            (#[trigger] a.pool.items[i]).tiles,
            u,
        ) == tiles_of(s.pool.items[i].tiles, u) by {
            lemma_same_tiles(a.pool.items[i].tiles, s.pool.items[i].tiles, u);
        }
        lemma_same_tally(a.pool.items, s.pool.items, u);
    }
    assert forall|u: WindowId| #[trigger] b.census(u) <= s.census(u) by {
        assert forall|i: int| 0 <= i < s.pool.items.len() implies tiles_of(
            (#[trigger] b.pool.items[i]).tiles,
            u,
        ) == tiles_of(s.pool.items[i].tiles, u) by {
            lemma_same_tiles(b.pool.items[i].tiles, s.pool.items[i].tiles, u);
        }
        lemma_same_tally(b.pool.items, s.pool.items, u);
    }
}

/// Swipes along workspaces move no window.
pub proof fn lemma_set_gestures_load(
    p: PoolModel,
    ids: Seq<WorkspaceId>,
    keep: Option<int>,
    g: bool,
    u: WindowId,
)
    ensures
        tally(p.set_gestures(ids, keep, g).items, u) == tally(p.items, u),
    decreases ids.len(),
{
    broadcast use lemma_put_tally;

    if ids.len() > 0 {
        lemma_set_gestures_load(p, ids.drop_last(), keep, g, u);
    }
}

/// The beginning of a swipe along workspaces keeps the layout in order.
pub proof fn lemma_begin_slide_order(
    s: LayoutModel,
    out: OutputId,
    idx: Option<int>,
    is_touchpad: bool,
    n: int,
)
    ensures
        orders(s, s.begin_slide(out, idx, is_touchpad, n)),
    decreases n,
{
    if n > 0 {
        lemma_begin_slide_order(s, out, idx, is_touchpad, n - 1);
        let t = s.begin_slide(out, idx, is_touchpad, n - 1);
        let u = s.begin_slide(out, idx, is_touchpad, n);
        let m = t.monitors[n - 1];
        if let Some(v) = t.active_view(m.output.id) {
            let keep = if m.output.id != out {
                None
            } else if idx is Some {
                idx
            } else {
                Some(v.active_position())
            };
            assert forall|w: WindowId| #[trigger] u.census(w) <= s.census(w) by {
                lemma_set_gestures_load(t.pool, v.ids, keep, is_touchpad, w);
                assert(t.census(w) <= s.census(w));
            }
        }
    }
}

/// A swipe along one workspace retouches it.
pub proof fn lemma_set_gesture(p: PoolModel, id: WorkspaceId, g: Option<bool>)
    ensures
        retouched(p, p.set_gesture(id, g)),
{
    lemma_get(p, id);
}

/// Swipes along workspaces retouch them.
pub proof fn lemma_set_gestures(p: PoolModel, ids: Seq<WorkspaceId>, keep: Option<int>, g: bool)
    ensures
        retouched(p, p.set_gestures(ids, keep, g)),
    decreases ids.len(),
{
    if ids.len() > 0 {
        let q = p.set_gestures(ids.drop_last(), keep, g);
        lemma_set_gestures(p, ids.drop_last(), keep, g);
        let at = ids.len() - 1;
        let h = if keep == Some(at) {
            Some(g)
        } else {
            None
        };
        lemma_set_gesture(q, ids.last(), h);
        lemma_retouched_trans(p, q, p.set_gestures(ids, keep, g));
    }
}

/// The beginning of a swipe along workspaces leaves everything at rest.
pub proof fn lemma_begin_slide(
    s: LayoutModel,
    out: OutputId,
    idx: Option<int>,
    is_touchpad: bool,
    n: int,
)
    ensures
        s.begin_slide(out, idx, is_touchpad, n) == (LayoutModel {
            pool: s.begin_slide(out, idx, is_touchpad, n).pool,
            ..s
        }),
        retouched(s.pool, s.begin_slide(out, idx, is_touchpad, n).pool),
    decreases n,
{
    if n > 0 {
        lemma_begin_slide(s, out, idx, is_touchpad, n - 1);
        let t = s.begin_slide(out, idx, is_touchpad, n - 1);
        let m = t.monitors[n - 1];
        if let Some(v) = t.active_view(m.output.id) {
            let keep = if m.output.id != out {
                None
            } else if idx is Some {
                idx
            } else {
                Some(v.active_position())
            };
            lemma_set_gestures(t.pool, v.ids, keep, is_touchpad);
            lemma_retouched_trans(
                s.pool,
                t.pool,
                s.begin_slide(out, idx, is_touchpad, n).pool,
            );
        }
    }
}

/// Swiping along the columns of workspaces keeps the layout whole and in order.
pub proof fn law_sliding_keeps_whole(
    s: LayoutModel,
    out: OutputId,
    idx: Option<int>,
    is_touchpad: bool,
    n: int,
    id: WorkspaceId,
)
    requires
        s.whole(),
    ensures
        s.begin_slide(out, idx, is_touchpad, n).whole(),
        (LayoutModel { pool: s.pool.set_gesture(id, None), ..s }).whole(),
        s.orderly() ==> s.begin_slide(out, idx, is_touchpad, n).orderly() && (LayoutModel {
            pool: s.pool.set_gesture(id, None),
            ..s
        }).orderly(),
{
    broadcast use lemma_put_tally;

    lemma_orders(s, LayoutModel { pool: s.pool.set_gesture(id, None), ..s });
    lemma_begin_slide_order(s, out, idx, is_touchpad, n);
    lemma_orders(s, s.begin_slide(out, idx, is_touchpad, n));
    lemma_begin_slide(s, out, idx, is_touchpad, n);
    lemma_at_rest(s, s.begin_slide(out, idx, is_touchpad, n));
    lemma_set_gesture(s.pool, id, None);
    lemma_at_rest(s, LayoutModel { pool: s.pool.set_gesture(id, None), ..s });
}

} // verus!
