//! Which activities there are, what they are called and how recently they were active is left alone by
//! whatever only changes what they show.

use vstd::prelude::*;

use crate::activity::{ActivitiesModel, ActivityModel};
use crate::coherence::lemma_act;
use crate::ids::{ActivityId, OutputId, WindowId, WorkspaceId};
use crate::layout::LayoutModel;
use crate::reconcile::{Missing, Stray};
use crate::view::ViewModel;
use crate::windows::ActivateWindow;
use crate::workspace::Tile;

verus! {

/// The activities without what they show, the active one, and the two counts.
pub open spec fn roster(acts: ActivitiesModel) -> (Seq<ActivityModel>, ActivityId, int, int) {
    (
        Seq::new(
            acts.list.len(),
            |i: int| ActivityModel { views: Seq::empty(), ..acts.list[i] },
        ),
        acts.active,
        acts.next,
        acts.seq,
    )
}

/// Replacing the views of one activity.
pub proof fn lemma_put_roster(acts: ActivitiesModel, act: ActivityId, b: ActivityModel)
    requires
        match acts.get(act) {
            Some(a) => b == (ActivityModel { views: b.views, ..a }),
            None => true,
        },
    ensures
        roster(acts.put(act, b)) == roster(acts),
{
    lemma_act(acts, act);
    assert(roster(acts.put(act, b)).0 =~= roster(acts).0);
}

/// Replacing a view.
pub broadcast proof fn lemma_set_view_roster(
    acts: ActivitiesModel,
    act: ActivityId,
    out: OutputId,
    v: ViewModel,
)
    ensures
        #[trigger] roster(acts.set_view(act, out, v)) == roster(acts),
{
    if let Some(a) = acts.get(act) {
        lemma_put_roster(acts, act, a.set_view(out, v));
    }
}

/// Adding a view.
pub broadcast proof fn lemma_add_view_roster(
    acts: ActivitiesModel,
    act: ActivityId,
    out: OutputId,
    v: ViewModel,
)
    ensures
        #[trigger] roster(acts.add_view(act, out, v)) == roster(acts),
{
    if let Some(a) = acts.get(act) {
        lemma_put_roster(acts, act, a.add_view(out, v));
    }
}

/// Dropping a view.
pub broadcast proof fn lemma_drop_view_roster(acts: ActivitiesModel, act: ActivityId, out: OutputId)
    ensures
        #[trigger] roster(acts.drop_view(act, out)) == roster(acts),
{
    if let Some(a) = acts.get(act) {
        lemma_put_roster(acts, act, a.drop_view(out));
    }
}

/// Dropping a workspace from every view.
pub broadcast proof fn lemma_drop_workspace_roster(acts: ActivitiesModel, id: WorkspaceId)
    ensures
        #[trigger] roster(acts.drop_workspace(id)) == roster(acts),
{
    assert(roster(acts.drop_workspace(id)).0 =~= roster(acts).0);
}

/// Opening a view over some workspaces.
pub proof fn lemma_open_over_roster(s: LayoutModel, mon: int, act: ActivityId, body: Seq<WorkspaceId>)
    ensures
        roster(s.open_over(mon, act, body).acts) == roster(s.acts),
{
    broadcast use lemma_add_view_roster;

    if let Some(a) = s.acts.get(act) {
        let b = ActivityModel {
            views: crate::materialize::strip_others(a.views, s.monitors[mon].output.id, body),
            ..a
        };
        lemma_put_roster(s.acts, act, b);
    }
}

/// Opening a view with what waits for it.
pub proof fn lemma_open_view_roster(s: LayoutModel, mon: int, act: ActivityId)
    ensures
        roster(s.open_view(mon, act).acts) == roster(s.acts),
{
    broadcast use lemma_add_view_roster;

    if let Some(a) = s.acts.get(act) {
        let out = s.monitors[mon].output.id;
        let body = crate::materialize::tagged(s.pool, act, out);
        let b = ActivityModel {
            views: crate::materialize::strip_others(a.views, out, body),
            ..a
        };
        lemma_put_roster(s.acts, act, b);
    }
}

/// New bookends.
pub proof fn lemma_normalize_acts_roster(s: LayoutModel, mon: int, n: int)
    ensures
        roster(s.normalize_acts(mon, n).acts) == roster(s.acts),
    decreases n,
{
    broadcast use lemma_set_view_roster;

    if n > 0 {
        lemma_normalize_acts_roster(s, mon, n - 1);
    }
}

/// New bookends on several monitors.
pub proof fn lemma_normalize_roster(s: LayoutModel, n: int)
    ensures
        roster(s.normalize_mons(n).acts) == roster(s.acts),
    decreases n,
{
    if n > 0 {
        lemma_normalize_roster(s, n - 1);
        lemma_normalize_acts_roster(s.normalize_mons(n - 1), n - 1, s.acts.list.len() as int);
    }
}

/// Views of one activity on several monitors.
pub proof fn lemma_bare_row_roster(s: LayoutModel, act: ActivityId, n: int)
    ensures
        roster(s.bare_row(act, n).acts) == roster(s.acts),
    decreases n,
{
    if n > 0 {
        lemma_bare_row_roster(s, act, n - 1);
        lemma_open_over_roster(s.bare_row(act, n - 1), n - 1, act, Seq::empty());
    }
}

/// Views of several activities on every monitor.
pub proof fn lemma_bare_rows_roster(s: LayoutModel, n: int)
    ensures
        roster(s.bare_rows(n).acts) == roster(s.acts),
    decreases n,
{
    if n > 0 {
        lemma_bare_rows_roster(s, n - 1);
        lemma_bare_row_roster(s.bare_rows(n - 1), s.acts.list[n - 1].id, s.monitors.len() as int);
    }
}

/// A workspace shown by several activities.
pub proof fn lemma_seat_acts_roster(s: LayoutModel, id: WorkspaceId, n: int)
    ensures
        roster(s.seat_acts(id, n).acts) == roster(s.acts),
    decreases n,
{
    broadcast use lemma_set_view_roster;

    if n > 0 {
        lemma_seat_acts_roster(s, id, n - 1);
    }
}

/// Several workspaces shown by the activities that they belong to.
pub proof fn lemma_seat_all_roster(s: LayoutModel, ids: Seq<WorkspaceId>)
    ensures
        roster(s.seat_all(ids).acts) == roster(s.acts),
    decreases ids.len(),
{
    if ids.len() > 0 {
        lemma_seat_all_roster(s, ids.drop_last());
        lemma_seat_acts_roster(
            s.seat_all(ids.drop_last()),
            ids.last(),
            s.acts.list.len() as int,
        );
    }
}

/// Mending a layout changes no activity but for what it shows: not which there are nor their order,
/// no name, not which are declared, and not how recently any was active.
pub proof fn law_mending_keeps_the_roster(s: LayoutModel)
    ensures
        roster(s.mended().acts) == roster(s.acts),
{
    let a = s.straightened();
    assert(roster(a.acts) == roster(s.acts));
    if a.monitors.len() == 0 {
        assert(roster(a.stow().acts).0 =~= roster(a.acts).0);
    } else {
        let u = a.untangle();
        assert(roster(u.acts).0 =~= roster(a.acts).0);
        lemma_bare_rows_roster(u, u.acts.list.len() as int);
        let d = a.covered().discard();
        lemma_seat_all_roster(d, crate::materialize::ids_of(d.pool.items));
        let p = a.peopled();
        lemma_normalize_roster(p, p.monitors.len() as int);
    }
}

/// Views of one activity on several monitors, each with what waits for it.
pub proof fn lemma_ensure_row_roster(s: LayoutModel, act: ActivityId, n: int)
    ensures
        roster(s.ensure_row(act, n).acts) == roster(s.acts),
    decreases n,
{
    if n > 0 {
        lemma_ensure_row_roster(s, act, n - 1);
        lemma_open_view_roster(s.ensure_row(act, n - 1), n - 1, act);
    }
}

/// Views of several activities on every monitor, each with what waits for it.
pub proof fn lemma_ensure_rows_roster(s: LayoutModel, n: int)
    ensures
        roster(s.ensure_rows(n).acts) == roster(s.acts),
    decreases n,
{
    if n > 0 {
        lemma_ensure_rows_roster(s, n - 1);
        lemma_ensure_row_roster(
            s.ensure_rows(n - 1),
            s.acts.list[n - 1].id,
            s.monitors.len() as int,
        );
    }
}

/// Showing what is missing.
pub proof fn lemma_show_all_roster(s: LayoutModel, work: Seq<Missing>)
    ensures
        roster(s.show_all(work).acts) == roster(s.acts),
    decreases work.len(),
{
    broadcast use lemma_set_view_roster;

    if work.len() > 0 {
        lemma_show_all_roster(s, work.drop_last());
    }
}

/// Hiding what has strayed.
pub proof fn lemma_unshow_all_roster(s: LayoutModel, work: Seq<Stray>)
    ensures
        roster(s.unshow_all(work).acts) == roster(s.acts),
    decreases work.len(),
{
    broadcast use {lemma_set_view_roster, lemma_drop_view_roster};

    if work.len() > 0 {
        lemma_unshow_all_roster(s, work.drop_last());
    }
}

/// Collapsing views.
pub proof fn lemma_collapse_all_roster(s: LayoutModel, work: Seq<Stray>)
    ensures
        roster(s.collapse_all(work).acts) == roster(s.acts),
    decreases work.len(),
{
    broadcast use lemma_drop_workspace_roster;

    if work.len() > 0 {
        lemma_collapse_all_roster(s, work.drop_last());
    }
}

/// Reclaiming what is no longer in use.
pub proof fn lemma_reclaim_all_roster(s: LayoutModel, ids: Seq<WorkspaceId>)
    ensures
        roster(s.reclaim_all(ids).acts) == roster(s.acts),
    decreases ids.len(),
{
    broadcast use lemma_drop_workspace_roster;

    if ids.len() > 0 {
        lemma_reclaim_all_roster(s, ids.drop_last());
    }
}

/// Bringing views and membership together changes no activity but for what it shows.
pub proof fn law_reconciling_keeps_the_roster(s: LayoutModel)
    ensures
        roster(s.reconcile().acts) == roster(s.acts),
{
    if s.monitors.len() > 0 {
        let wanted = crate::reconcile::all_missing(s.pool, s.acts.list, s.parked);
        let unwanted = crate::reconcile::all_strays(s.pool, s.acts.list);
        lemma_show_all_roster(s, wanted);
        lemma_show_all_roster(s.snap_all(), wanted);
        let active = s.acts.active;
        let touched = (exists|i: int|
            0 <= i < wanted.len() && (#[trigger] wanted[i]).act == active) || (exists|i: int|
            0 <= i < unwanted.len() && (#[trigger] unwanted[i]).act == active);
        let s1 = if touched {
            s.snap_all()
        } else {
            s
        };
        let s2 = s1.show_all(wanted);
        let done = s2.taken(unwanted);
        lemma_unshow_all_roster(s2, unwanted);
        let u = s2.unshow_all(unwanted);
        lemma_collapse_all_roster(u, done);
        let s3 = u.collapse_all(done);
        lemma_ensure_rows_roster(s3, s3.acts.list.len() as int);
        let s4 = if s2.drops_view(unwanted) {
            s3.ensure_all()
        } else {
            s3
        };
        lemma_normalize_roster(s4, s4.monitors.len() as int);
        let s5 = if s1.shows_any_busy(wanted) {
            s4.normalize()
        } else {
            s4
        };
        lemma_reclaim_all_roster(
            s5,
            crate::materialize::ids_of(s5.pool.items.filter(crate::reconcile::strayed(done))),
        );
    }
}

/// An activity that is created has the name that was asked for, is not declared, and was never
/// active. The others keep their names, their order and how recently they were active, so that going
/// back through the activities goes where it went before.
pub proof fn law_created_activity_has_the_name(s: LayoutModel, name: Seq<char>)
    requires
        s.whole(),
        s.create_activity(name).mended().fits(),
    ensures
        ({
            let t = s.create_activity(name).mended();
            let n = s.acts.list.len() as int;
            &&& t.acts.list.len() == n + 1
            &&& t.acts.list[n].name == name
            &&& !t.acts.list[n].declared
            &&& t.acts.list[n].last_active_seq == 0
            &&& forall|i: int|
                0 <= i < n ==> (#[trigger] t.acts.list[i]) == (ActivityModel {
                    views: t.acts.list[i].views,
                    ..s.acts.list[i]
                })
            &&& t.acts.active == s.acts.active
            &&& t.acts.seq == s.acts.seq
            &&& s.acts.ranked() ==> t.acts.ranked()
        }),
{
    let n = s.acts.list.len() as int;
    let e = s.extended(name);
    let f = e.ensure_all();
    let r = s.create_activity(name);
    let t = r.mended();
    lemma_ensure_rows_roster(e, e.acts.list.len() as int);
    law_reconciling_keeps_the_roster(f);
    law_mending_keeps_the_roster(r);
    assert(roster(t.acts) == roster(e.acts));
    let a = roster(t.acts).0;
    let b = roster(e.acts).0;
    assert(a.len() == b.len() == n + 1);
    assert forall|i: int| 0 <= i <= n implies (#[trigger] t.acts.list[i]) == (ActivityModel {
        views: t.acts.list[i].views,
        ..e.acts.list[i]
    }) by {
        assert(a[i] == b[i]);
    }
    if s.acts.ranked() {
        crate::enrolling::law_created_activity_is_the_last(s, name);
        assert(t.acts.ids().last() == t.acts.list[n].id);
        lemma_act(s.acts, s.acts.active);
        assert(t.acts.list[n].id != s.acts.active);
        assert forall|i: int| 0 <= i < t.acts.list.len() implies 0 <= (
        #[trigger] t.acts.list[i]).last_active_seq <= t.acts.seq && (t.acts.list[i].id
            == t.acts.active <==> t.acts.list[i].last_active_seq == t.acts.seq) by {
            if i < n {
                assert(0 <= s.acts.list[i].last_active_seq <= s.acts.seq);
            }
        }
        assert forall|i: int, j: int|
            0 <= i < j < t.acts.list.len() && (#[trigger] t.acts.list[i]).last_active_seq
                > 0 implies t.acts.list[i].last_active_seq != (
        #[trigger] t.acts.list[j]).last_active_seq by {
            if j < n {
                assert(s.acts.list[i].last_active_seq != s.acts.list[j].last_active_seq);
            }
        }
    }
}

/// Destroying workspaces.
pub broadcast proof fn lemma_destroy_all_roster(s: LayoutModel, ids: Seq<WorkspaceId>)
    ensures
        #[trigger] roster(s.destroy_all(ids).acts) == roster(s.acts),
    decreases ids.len(),
{
    broadcast use lemma_drop_workspace_roster;

    if ids.len() > 0 {
        lemma_destroy_all_roster(s, ids.drop_last());
    }
}

/// Sweeping a monitor.
pub broadcast proof fn lemma_clean_up_roster(s: LayoutModel, mon: int)
    ensures
        #[trigger] roster(s.clean_up(mon).acts) == roster(s.acts),
{
    broadcast use {lemma_set_view_roster, lemma_destroy_all_roster};

}

/// Putting in an empty workspace.
pub broadcast proof fn lemma_mint_into_roster(s: LayoutModel, mon: int, act: ActivityId, pos: int)
    ensures
        #[trigger] roster(s.mint_into(mon, act, pos).acts) == roster(s.acts),
{
    broadcast use lemma_set_view_roster;

}

/// Giving the focus to a place.
pub broadcast proof fn lemma_focus_on_roster(s: LayoutModel, mon: int, idx: int)
    ensures
        #[trigger] roster(s.focus_on(mon, idx).acts) == roster(s.acts),
{
    broadcast use lemma_set_view_roster;

}

/// Placing a window.
pub broadcast proof fn lemma_place_roster(
    s: LayoutModel,
    mon: int,
    idx: int,
    tile: Tile,
    focus: bool,
    switch: bool,
)
    ensures
        #[trigger] roster(s.place(mon, idx, tile, focus, switch).acts) == roster(s.acts),
{
    broadcast use {lemma_mint_into_roster, lemma_focus_on_roster};

}

/// Turning to another workspace and opening one change no activity but for what it shows: no name, no
/// order, and not how recently any was active.
pub proof fn law_turning_keeps_the_roster(s: LayoutModel, idx: int, below: int)
    ensures
        roster(s.switch_to(idx).mended().acts) == roster(s.acts),
        roster(s.switch_back().mended().acts) == roster(s.acts),
        roster(s.open_beside(below).mended().acts) == roster(s.acts),
{
    broadcast use {
        lemma_set_view_roster,
        lemma_clean_up_roster,
        lemma_mint_into_roster,
        lemma_focus_on_roster,
        lemma_place_roster,
    };

    law_mending_keeps_the_roster(s.switch_to(idx));
    law_mending_keeps_the_roster(s.switch_back());
    law_mending_keeps_the_roster(s.open_beside(below));
}

/// Rearranging workspaces changes no activity but for what it shows.
pub proof fn law_rearranging_keeps_the_roster(s: LayoutModel, mon: int, from: int, to: int)
    ensures
        roster(s.sink(mon).mended().acts) == roster(s.acts),
        roster(s.raise(mon).mended().acts) == roster(s.acts),
        roster(s.relocate(mon, from, to).mended().acts) == roster(s.acts),
{
    broadcast use {
        lemma_set_view_roster,
        lemma_clean_up_roster,
        lemma_mint_into_roster,
        lemma_focus_on_roster,
        lemma_place_roster,
    };

    law_mending_keeps_the_roster(s.sink(mon));
    law_mending_keeps_the_roster(s.raise(mon));
    law_mending_keeps_the_roster(s.relocate(mon, from, to));
}

/// Moving the focused window up or down, or to a new workspace, changes no activity but for what it
/// shows.
pub proof fn law_moving_by_one_keeps_the_roster(s: LayoutModel, focus: bool, below: int)
    ensures
        roster(s.move_up(focus).mended().acts) == roster(s.acts),
        roster(s.move_down(focus).mended().acts) == roster(s.acts),
        roster(s.move_new(focus, below).mended().acts) == roster(s.acts),
{
    broadcast use {
        lemma_set_view_roster,
        lemma_clean_up_roster,
        lemma_mint_into_roster,
        lemma_focus_on_roster,
        lemma_place_roster,
    };

    law_mending_keeps_the_roster(s.move_up(focus));
    law_mending_keeps_the_roster(s.move_down(focus));
    law_mending_keeps_the_roster(s.move_new(focus, below));
}

/// Moving a window to a workspace or an output changes no activity but for what it shows.
pub proof fn law_moving_windows_keeps_the_roster(
    s: LayoutModel,
    window: Option<WindowId>,
    mon: int,
    idx: int,
    place: Option<int>,
    activate: ActivateWindow,
)
    ensures
        roster(s.move_to_workspace(window, idx, activate).mended().acts) == roster(s.acts),
        roster(s.move_to_output(window, mon, place, activate).mended().acts) == roster(s.acts),
{
    broadcast use {
        lemma_set_view_roster,
        lemma_clean_up_roster,
        lemma_mint_into_roster,
        lemma_focus_on_roster,
        lemma_place_roster,
    };

    law_mending_keeps_the_roster(s.move_to_workspace(window, idx, activate));
    law_mending_keeps_the_roster(s.move_to_output(window, mon, place, activate));
}

/// Activating a window changes no activity but for what it shows.
pub proof fn law_activating_keeps_the_roster(s: LayoutModel, w: WindowId)
    ensures
        roster(s.activate_window(w).mended().acts) == roster(s.acts),
{
    broadcast use {
        lemma_set_view_roster,
        lemma_clean_up_roster,
        lemma_mint_into_roster,
        lemma_focus_on_roster,
        lemma_place_roster,
    };

    law_mending_keeps_the_roster(s.activate_window(w));
}

/// What has the same roster is ranked alike.
pub proof fn law_same_roster_ranks_alike(a: ActivitiesModel, b: ActivitiesModel)
    requires
        roster(a) == roster(b),
    ensures
        a.ranked() == b.ranked(),
{
    let x = roster(a).0;
    let y = roster(b).0;
    assert(x.len() == y.len());
    assert forall|i: int| 0 <= i < a.list.len() implies (#[trigger] a.list[i]).id == b.list[i].id
        && a.list[i].last_active_seq == b.list[i].last_active_seq by {
        assert(x[i] == y[i]);
    }
    assert forall|i: int| 0 <= i < b.list.len() implies (#[trigger] b.list[i]).id == a.list[i].id
        && a.list[i].last_active_seq == b.list[i].last_active_seq by {
        assert(x[i] == y[i]);
    }
}

} // verus!
