//! Connecting and disconnecting outputs keeps the layout whole and loses no work.

use vstd::prelude::*;

use crate::census::{lemma_has, lemma_steady_load, tally};
use crate::coherence::{lemma_act, lemma_same_ids};
use crate::connect::{coming_along, left_behind};
use crate::cores::apart;
use crate::disconnect::{firsts, index_after, residents};
use crate::ids::{ActivityId, OutputId, WindowId, WorkspaceId};
use crate::layout::{on_output, LayoutModel};
use crate::monitor::Monitor;
use crate::outputs::{idle, worth_keeping};
use crate::returning::lemma_mended_steady;
use crate::search::lemma_find_from;
use crate::steadying::{
    fair, lemma_add_output_steady, lemma_remove_output_steady, lemma_steady_acts,
    lemma_steady_trans, spares, steady,
};
use crate::wholeness::law_mending_makes_whole;
use crate::workspace::Output;

verus! {

/// `t` has the monitors of `s` but for the one at `idx`, and remembers the same strips.
pub open spec fn one_less(s: LayoutModel, t: LayoutModel, idx: int) -> bool {
    &&& t.monitors.len() == s.monitors.len() - 1
    &&& forall|k: int|
        0 <= k < t.monitors.len() ==> (#[trigger] t.monitors[k]).output == s.monitors.remove(
            idx,
        )[k].output && t.monitors[k].overview_open == s.monitors.remove(idx)[k].overview_open
            && t.monitors[k].activity_switch == s.monitors.remove(idx)[k].activity_switch
    &&& t.strips == s.strips
    &&& t.overview_open == s.overview_open
    &&& t.moving == s.moving
    &&& t.bookmarks == s.bookmarks
    &&& s.before(t)
}

/// What disconnecting does to the monitors.
pub proof fn lemma_remove_output_frame(s: LayoutModel, idx: int)
    requires
        0 <= idx < s.monitors.len(),
        0 <= s.primary < s.monitors.len(),
        s.active_view(s.monitors[idx].output.id) is Some,
    ensures
        one_less(s, s.remove_output(idx), idx),
        s.monitors.len() == 1 ==> s.remove_output(idx).primary == 0 && s.remove_output(idx).focused
            == 0,
        s.monitors.len() > 1 ==> s.remove_output(idx).primary == index_after(s.primary, idx)
            && s.remove_output(idx).focused == index_after(s.focused, idx),
{
    let m = s.monitors[idx];
    let out = m.output.id;
    let v = s.active_view(out).unwrap();
    let t = LayoutModel {
        acts: s.acts.drop_view(s.acts.active, out),
        monitors: s.monitors.remove(idx),
        remembered: crate::disconnect::noted(s.remembered, m.output.connector, v.active),
        ..s
    };
    if t.monitors.len() == 0 {
        let all = v.ids + residents(t.acts.list, out);
        let parked = firsts(all.filter(worth_keeping(t.pool)));
        let doomed = firsts(all.filter(idle(t.pool)));
        let a = t.drop_views(out);
        crate::connect::lemma_unbind_all_next(a.pool, parked);
        let b = LayoutModel {
            pool: a.pool.unbind_all(parked),
            parked,
            primary: 0,
            focused: 0,
            ..a
        };
        crate::reclaim::lemma_destroy_all_leads(b, doomed);
    } else {
        let u = LayoutModel {
            primary: index_after(s.primary, idx),
            focused: index_after(s.focused, idx),
            ..t
        };
        let shown = v.ids;
        let kept = shown.filter(worth_keeping(u.pool));
        let output = u.monitors[u.primary].output;
        let s0 = LayoutModel { pool: u.pool.unbind_all(kept), ..u };
        crate::connect::lemma_unbind_all_next(u.pool, kept);
        let s1 = s0.append(u.primary, kept);
        let idles = residents(s1.acts.list, out).filter(idle(s1.pool));
        let doomed = firsts(shown.filter(idle(u.pool)) + idles);
        let s2 = s1.drop_views(out);
        let s3 = s2.migrate_from(s1.pool, s1.acts.list, out, output);
        let s4 = s3.destroy_all(doomed);
        crate::disconnect::lemma_append_leads(s0, u.primary, kept);
        crate::disconnect::lemma_drop_views_leads(s1, out);
        crate::disconnect::lemma_migrate_from_leads(s2, s1.pool, s1.acts.list, out, output);
        crate::reclaim::lemma_destroy_all_leads(s3, doomed);
        crate::materialize::lemma_ensure_all_leads(s4);
        let r = s4.ensure_all();
        assert(s0.leads_to(s1));
        assert(s1.leads_to(s2));
        assert(s2.leads_to(s3));
        assert(s3.leads_to(s4));
        assert(s4.leads_to(r));
        assert forall|k: int| 0 <= k < r.monitors.len() implies (#[trigger] r.monitors[k]).output
            == s.monitors.remove(idx)[k].output by {
            assert(s4.monitors[k].output == r.monitors[k].output);
            assert(s3.monitors[k].output == s4.monitors[k].output);
            assert(s2.monitors[k].output == s3.monitors[k].output);
            assert(s1.monitors[k].output == s2.monitors[k].output);
            assert(s0.monitors[k].output == s1.monitors[k].output);
        }
    }
}

/// `t` has the monitors of `s` and one more for `output`, and remembers the same strips.
pub open spec fn one_more(s: LayoutModel, t: LayoutModel, output: Output) -> bool {
    &&& t.monitors.len() == s.monitors.len() + 1
    &&& forall|k: int|
        0 <= k < s.monitors.len() ==> (#[trigger] s.monitors[k]).output == t.monitors[k].output
            && s.monitors[k].overview_open == t.monitors[k].overview_open
            && s.monitors[k].activity_switch == t.monitors[k].activity_switch
    &&& t.monitors[s.monitors.len() as int].output == output
    &&& t.monitors[s.monitors.len() as int].overview_open == s.overview_open
    &&& t.monitors[s.monitors.len() as int].activity_switch is None
    &&& t.strips == s.strips
    &&& t.overview_open == s.overview_open
    &&& t.moving == s.moving
    &&& t.bookmarks == s.bookmarks
}

/// What connecting does to the monitors.
pub proof fn lemma_add_output_frame(s: LayoutModel, output: Output, leading: Option<bool>)
    requires
        s.monitors.len() > 0 ==> 0 <= s.primary < s.monitors.len(),
    ensures
        one_more(s, s.add_output(output, leading), output),
{
    let m = Monitor {
        output,
        empty_workspace_above_first: match leading {
            Some(b) => b,
            None => s.options.empty_workspace_above_first,
        },
        workspace_switch: None,
        activity_switch: None,
        overview_open: s.overview_open,
        dnd_scroll: false,
    };
    let remembered = crate::outputs::recalled(s.remembered, output.connector);
    let act = s.acts.active;
    let out = output.id;
    let t = s.add_output(output, leading);
    if s.monitors.len() == 0 {
        let drained = s.parked;
        let members = drained.filter(crate::outputs::of_activity(s.pool, act));
        let others = drained.filter(crate::outputs::not_of_activity(s.pool, act));
        let s1 = LayoutModel { parked: Seq::empty(), ..s.forget(output.connector) };
        let s1b = s1.open_monitor(m, members, remembered);
        let s2 = LayoutModel { primary: 0, focused: 0, ..s1b };
        let s3 = LayoutModel { pool: s2.pool.bind_all(others, output), ..s2 };
        let s3b = s3.ensure_all();
        let s3c = s3b.install_all(0, drained);
        crate::materialize::lemma_ensure_all_leads(s3);
        assert(drained.take(drained.len() as int) =~= drained);
        crate::outputs::lemma_install_all_leads(s3b, 0, drained, drained.len() as int);
        assert(t.monitors == s3c.monitors && t.strips == s3c.strips && t.overview_open
            == s3c.overview_open && t.moving == s3c.moving && t.bookmarks == s3c.bookmarks);
        assert(s3.monitors[0].output == s3b.monitors[0].output);
        assert(s3b.monitors[0].output == s3c.monitors[0].output);
    } else {
        let shown = match s.active_view(s.monitors[s.primary].output.id) {
            Some(v) => v.ids,
            None => Seq::empty(),
        };
        let body = shown.filter(coming_along(s.pool, output));
        let doomed = shown.filter(left_behind(s.pool, output));
        let s1 = s.peel_primary(output);
        crate::connect::lemma_peel_primary_leads(s, output);
        let s2 = s1.forget(output.connector);
        let s3 = s2.open_monitor(m, body, remembered);
        let s4 = s3.destroy_all(doomed);
        crate::reclaim::lemma_destroy_all_leads(s3, doomed);
        crate::materialize::lemma_ensure_all_leads(s4);
        let n = s.monitors.len() as int;
        assert(s3.monitors[n].output == s4.monitors[n].output);
        assert(s4.monitors[n].output == t.monitors[n].output);
        assert forall|k: int| 0 <= k < s.monitors.len() implies (#[trigger] s.monitors[k]).output
            == t.monitors[k].output && s.monitors[k].overview_open == t.monitors[k].overview_open
            && s.monitors[k].activity_switch == t.monitors[k].activity_switch by {
            assert(s.monitors[k].output == s1.monitors[k].output);
            assert(s3.monitors[k] == s1.monitors[k]);
            assert(s3.monitors[k].output == s4.monitors[k].output);
            assert(s4.monitors[k].output == t.monitors[k].output);
        }
    }
}

/// Disconnecting an output, step by step.
pub proof fn lemma_disconnect(s: LayoutModel, idx: int)
    requires
        s.whole(),
        0 <= idx < s.monitors.len(),
        s.disconnect(idx).fits(),
    ensures
        ({
            let t = s.disconnect(idx);
            &&& t.whole()
            &&& steady(s, s.note_strips(idx).remove_output(idx), s.monitors[idx].output)
            &&& steady(s, t, s.monitors[idx].output)
            &&& t.strips == s.note_strips(idx).strips
            &&& t.monitors.len() == s.monitors.len() - 1
            &&& forall|k: int|
                0 <= k < t.monitors.len() ==> (#[trigger] t.monitors[k]).output
                    == s.monitors.remove(idx)[k].output
            &&& s.monitors.len() == 1 ==> t.primary == 0 && t.focused == 0
            &&& s.orderly() ==> t.orderly()
            &&& s.mindful() ==> t.mindful()
        }),
{
    let o = s.monitors[idx].output;
    let s1 = s.note_strips(idx);
    let r = s1.remove_output(idx);
    let t = r.mended();
    lemma_act(s.acts, s.acts.active);
    assert(s.view_of(s.acts.list[s.acts.pos(s.acts.active).unwrap()].id, o.id) is Some);
    crate::mending::lemma_mended_leads(r);
    lemma_remove_output_frame(s1, idx);
    lemma_steady_acts(s, s1, o);
    assert forall|k: int| 0 <= k < s.monitors.len() && k != idx implies fair(
        (#[trigger] s.monitors[k]).output,
        o,
    ) by {
        if k < idx {
            assert(apart(s.monitors[k].output, s.monitors[idx].output));
        } else {
            assert(apart(s.monitors[idx].output, s.monitors[k].output));
        }
    }
    lemma_remove_output_steady(s1, idx, o);
    lemma_steady_trans(s, s1, r, o);
    let rest = s.monitors.remove(idx);
    assert forall|k: int| 0 <= k < rest.len() implies #[trigger] rest[k] == s.monitors[if k < idx {
        k
    } else {
        k + 1
    }] by {}
    assert(r.outputs_apart()) by {
        assert forall|i: int| 0 <= i < r.monitors.len() implies (
        #[trigger] r.monitors[i]).output.id.0 != 0 by {
            assert(r.monitors[i].output == rest[i].output);
        }
        assert forall|i: int, j: int| 0 <= i < j < r.monitors.len() implies apart(
            (#[trigger] r.monitors[i]).output,
            (#[trigger] r.monitors[j]).output,
        ) by {
            assert(r.monitors[i].output == rest[i].output);
            assert(r.monitors[j].output == rest[j].output);
            let x = if i < idx {
                i
            } else {
                i + 1
            };
            let y = if j < idx {
                j
            } else {
                j + 1
            };
            assert(apart(s.monitors[x].output, s.monitors[y].output));
        }
    }
    law_mending_makes_whole(r);
    lemma_mended_steady(r, o);
    lemma_steady_trans(s, r, t, o);
    crate::mending::lemma_straightened_leads(r);
    crate::mending::lemma_arranged_leads(r.straightened());
    assert forall|k: int| 0 <= k < t.monitors.len() implies (#[trigger] t.monitors[k]).output
        == s.monitors.remove(idx)[k].output by {
        assert(r.monitors[k].output == t.monitors[k].output);
    }
    if s.orderly() {
        assert forall|k: int| 0 <= k < t.monitors.len() implies (
        #[trigger] t.monitors[k]).overview_open == s.monitors.remove(idx)[k].overview_open
            && t.monitors[k].activity_switch == s.monitors.remove(idx)[k].activity_switch by {
            assert(r.monitors[k].output == t.monitors[k].output);
        }
        lemma_one_less_order(s, t, idx, o);
    }
    if s.mindful() {
        crate::retaining::lemma_steady_retains(s, t, o);
        crate::retaining::lemma_mindful(s, t);
    }
}

/// A monitor less leaves the layout in order.
pub proof fn lemma_one_less_order(s: LayoutModel, t: LayoutModel, idx: int, o: Output)
    requires
        s.orderly(),
        s.staffed(),
        steady(s, t, o),
        0 <= idx < s.monitors.len(),
        t.monitors.len() == s.monitors.len() - 1,
        forall|k: int|
            0 <= k < t.monitors.len() ==> (#[trigger] t.monitors[k]).overview_open
                == s.monitors.remove(idx)[k].overview_open && t.monitors[k].activity_switch
                == s.monitors.remove(idx)[k].activity_switch,
        t.overview_open == s.overview_open,
        t.moving == s.moving,
    ensures
        t.orderly(),
{
    lemma_steady_load(s, t, o);
    assert forall|w: WindowId| #[trigger] t.census(w) <= 1 by {
        assert(s.census(w) <= 1);
        assert(tally(t.pool.items, w) == tally(s.pool.items, w));
    }
    assert forall|m: int| 0 <= m < t.monitors.len() implies t.monitor_agrees(
        #[trigger] t.monitors[m],
    ) by {
        let k = if m < idx {
            m
        } else {
            m + 1
        };
        assert(s.monitors.remove(idx)[m] == s.monitors[k]);
        assert(s.monitor_agrees(s.monitors[k]));
        if let Some(a) = s.monitors[k].activity_switch {
            lemma_has(s.acts, a.from);
            lemma_has(t.acts, a.from);
        }
    }
    assert forall|i: int, j: int|
        0 <= i < j < t.monitors.len() && (#[trigger] t.monitors[i]).activity_switch is Some && (
        #[trigger] t.monitors[j]).activity_switch is Some implies t.monitors[i].activity_switch
        == t.monitors[j].activity_switch by {
        let k = if i < idx {
            i
        } else {
            i + 1
        };
        let l = if j < idx {
            j
        } else {
            j + 1
        };
        assert(s.monitors.remove(idx)[i] == s.monitors[k]);
        assert(s.monitors.remove(idx)[j] == s.monitors[l]);
        assert(s.monitors[k].activity_switch is Some);
        assert(s.monitors[l].activity_switch is Some);
    }
}

/// A monitor more leaves the layout in order.
pub proof fn lemma_one_more_order(s: LayoutModel, t: LayoutModel, o: Output)
    requires
        s.orderly(),
        s.staffed(),
        steady(s, t, o),
        t.monitors.len() == s.monitors.len() + 1,
        forall|k: int|
            0 <= k < s.monitors.len() ==> (#[trigger] s.monitors[k]).overview_open
                == t.monitors[k].overview_open && s.monitors[k].activity_switch
                == t.monitors[k].activity_switch,
        t.monitors[s.monitors.len() as int].overview_open == s.overview_open,
        t.monitors[s.monitors.len() as int].activity_switch is None,
        t.overview_open == s.overview_open,
        t.moving == s.moving,
    ensures
        t.orderly(),
{
    lemma_steady_load(s, t, o);
    assert forall|w: WindowId| #[trigger] t.census(w) <= 1 by {
        assert(s.census(w) <= 1);
        assert(tally(t.pool.items, w) == tally(s.pool.items, w));
    }
    assert forall|m: int| 0 <= m < t.monitors.len() implies t.monitor_agrees(
        #[trigger] t.monitors[m],
    ) by {
        if m < s.monitors.len() {
            assert(s.monitor_agrees(s.monitors[m]));
            if let Some(a) = s.monitors[m].activity_switch {
                lemma_has(s.acts, a.from);
                lemma_has(t.acts, a.from);
            }
        }
    }
    assert forall|i: int, j: int|
        0 <= i < j < t.monitors.len() && (#[trigger] t.monitors[i]).activity_switch is Some && (
        #[trigger] t.monitors[j]).activity_switch is Some implies t.monitors[i].activity_switch
        == t.monitors[j].activity_switch by {
        assert(s.monitors[i].activity_switch is Some);
        assert(s.monitors[j].activity_switch is Some);
    }
}

/// Connecting an output, step by step.
pub proof fn lemma_connect(t: LayoutModel, output: Output, leading: Option<bool>)
    requires
        t.whole(),
        output.id.0 != 0,
        forall|k: int|
            0 <= k < t.monitors.len() ==> apart((#[trigger] t.monitors[k]).output, output),
        t.connect(output, leading).fits(),
    ensures
        ({
            let r = t.add_output(output, leading);
            let u = t.connect(output, leading);
            &&& u.whole()
            &&& steady(t, r, output)
            &&& steady(t, u, output)
            &&& one_more(t, r, output)
            &&& u.monitors.len() == t.monitors.len() + 1
            &&& u.monitors[t.monitors.len() as int].output == output
            &&& forall|k: int|
                0 <= k < t.monitors.len() ==> (#[trigger] t.monitors[k]).output
                    == u.monitors[k].output
            &&& t.orderly() ==> u.orderly()
            &&& t.mindful() ==> u.mindful()
        }),
{
    let r = t.add_output(output, leading);
    let a = r.reinstate(output, t.standings(), t.monitors.len() == 0);
    let b = a.forget_strips(output.connector);
    let u = b.mended();
    assert(a.acts.ids() =~= r.acts.ids());
    crate::mending::lemma_mended_leads(b);
    lemma_add_output_frame(t, output, leading);
    assert(r.before(b));
    lemma_add_output_steady(t, output, leading, output);
    lemma_steady_acts(r, b, output);
    lemma_steady_trans(t, r, b, output);
    assert(b.outputs_apart()) by {
        assert forall|i: int| 0 <= i < b.monitors.len() implies (
        #[trigger] b.monitors[i]).output.id.0 != 0 by {
            if i < t.monitors.len() {
                assert(t.monitors[i].output == b.monitors[i].output);
            }
        }
        assert forall|i: int, j: int| 0 <= i < j < b.monitors.len() implies apart(
            (#[trigger] b.monitors[i]).output,
            (#[trigger] b.monitors[j]).output,
        ) by {
            assert(t.monitors[i].output == b.monitors[i].output);
            if j < t.monitors.len() {
                assert(t.monitors[j].output == b.monitors[j].output);
                assert(apart(t.monitors[i].output, t.monitors[j].output));
            } else {
                assert(apart(t.monitors[i].output, output));
            }
        }
    }
    law_mending_makes_whole(b);
    lemma_mended_steady(b, output);
    lemma_steady_trans(t, b, u, output);
    assert forall|k: int| 0 <= k < t.monitors.len() implies (#[trigger] t.monitors[k]).output
        == u.monitors[k].output by {
        assert(b.monitors[k].output == u.monitors[k].output);
    }
    assert(b.monitors[t.monitors.len() as int].output == u.monitors[t.monitors.len() as int].output);
    if t.orderly() {
        assert forall|k: int| 0 <= k < t.monitors.len() implies (
        #[trigger] t.monitors[k]).overview_open == u.monitors[k].overview_open
            && t.monitors[k].activity_switch == u.monitors[k].activity_switch by {
            assert(r.monitors[k].output == t.monitors[k].output);
            assert(b.monitors[k].output == u.monitors[k].output);
        }
        lemma_one_more_order(t, u, output);
    }
    if t.mindful() {
        crate::retaining::lemma_steady_retains(t, u, output);
        crate::retaining::lemma_mindful(t, u);
    }
}

/// Disconnecting an output keeps the layout whole: the views of that output are gone, and every
/// workspace with windows or a name stays, with the same windows, name and activities, still routed
/// to where it was routed, and is shown by each of its activities on one of the outputs that are
/// left. No empty workspace is left that nothing shows.
pub proof fn law_disconnecting_keeps_the_work(s: LayoutModel, idx: int)
    requires
        s.whole(),
        0 <= idx < s.monitors.len(),
        s.disconnect(idx).fits(),
    ensures
        ({
            let t = s.disconnect(idx);
            &&& t.whole()
            &&& spares(s.pool, t.pool, s.monitors[idx].output)
            &&& t.monitors.len() == s.monitors.len() - 1
            &&& forall|a: ActivityId| #[trigger] t.view_of(a, s.monitors[idx].output.id) is None
        }),
{
    lemma_disconnect(s, idx);
    let t = s.disconnect(idx);
    let o = s.monitors[idx].output;
    assert forall|a: ActivityId| #[trigger] t.view_of(a, o.id) is None by {
        if t.view_of(a, o.id) is Some {
            lemma_find_from(t.monitors, on_output(o.id), 0);
            let k = t.monitor_pos(o.id).unwrap();
            assert(t.monitors[k].output == s.monitors.remove(idx)[k].output);
            if k < idx {
                assert(apart(s.monitors[k].output, s.monitors[idx].output));
            } else {
                assert(apart(s.monitors[idx].output, s.monitors[k + 1].output));
            }
        }
    }
}

/// Disconnecting the last output puts everything away: no activity has a view, what has windows or a
/// name waits, once each, and nothing else is left.
pub proof fn law_last_output_parks(s: LayoutModel)
    requires
        s.whole(),
        s.monitors.len() == 1,
        s.disconnect(0).fits(),
    ensures
        ({
            let t = s.disconnect(0);
            &&& t.whole()
            &&& t.monitors.len() == 0
            &&& t.primary == 0
            &&& t.focused == 0
            &&& forall|a: ActivityId, o: OutputId| #[trigger] t.view_of(a, o) is None
            &&& t.parked.no_duplicates()
            &&& forall|x: WorkspaceId| #[trigger] t.parked.contains(x) <==> s.pool.busy(x)
            &&& forall|x: WorkspaceId| #[trigger] t.pool.has(x) <==> t.parked.contains(x)
            &&& spares(s.pool, t.pool, s.monitors[0].output)
        }),
{
    lemma_disconnect(s, 0);
    let t = s.disconnect(0);
    assert forall|a: ActivityId, o: OutputId| #[trigger] t.view_of(a, o) is None by {
        lemma_find_from(t.monitors, on_output(o), 0);
    }
    assert forall|x: WorkspaceId| #[trigger] t.parked.contains(x) implies s.pool.busy(x)
        && t.pool.has(x) by {
        let k = choose|k: int| 0 <= k < t.parked.len() && t.parked[k] == x;
        assert(t.pool.busy(t.parked[k]));
    }
    assert forall|x: WorkspaceId| #[trigger] s.pool.busy(x) implies t.parked.contains(x) by {
        assert(t.pool.busy(x));
        assert(t.pool.has(x));
    }
}

/// Connecting an output keeps the layout whole, and every workspace with windows or a name stays,
/// with the same windows, name and activities.
pub proof fn law_connecting_keeps_the_work(t: LayoutModel, output: Output, leading: Option<bool>)
    requires
        t.whole(),
        output.id.0 != 0,
        forall|k: int|
            0 <= k < t.monitors.len() ==> apart((#[trigger] t.monitors[k]).output, output),
        t.connect(output, leading).fits(),
    ensures
        ({
            let u = t.connect(output, leading);
            &&& u.whole()
            &&& spares(t.pool, u.pool, output)
            &&& u.monitors.len() == t.monitors.len() + 1
            &&& u.monitors[t.monitors.len() as int].output == output
            &&& forall|a: ActivityId|
                t.acts.has(a) ==> #[trigger] u.view_of(a, output.id) is Some
        }),
{
    lemma_connect(t, output, leading);
    let u = t.connect(output, leading);
    lemma_same_ids(t.acts, u.acts);
    assert forall|a: ActivityId| t.acts.has(a) implies #[trigger] u.view_of(
        a,
        output.id,
    ) is Some by {
        lemma_act(u.acts, a);
        let i = u.acts.pos(a).unwrap();
        assert(u.view_of(u.acts.list[i].id, u.monitors[t.monitors.len() as int].output.id) is Some);
    }
}

/// When an output goes away, the focused output stays focused and the primary one primary, as long as
/// it is another one. Otherwise the one before takes its place, or the first one if there is none.
pub proof fn law_disconnecting_keeps_the_focus(s: LayoutModel, idx: int)
    requires
        s.whole(),
        0 <= idx < s.monitors.len(),
        s.monitors.len() > 1,
        s.disconnect(idx).fits(),
    ensures
        ({
            let t = s.disconnect(idx);
            &&& 0 <= t.focused < t.monitors.len()
            &&& 0 <= t.primary < t.monitors.len()
            &&& t.monitors[t.focused].output == s.monitors[if s.focused != idx {
                s.focused
            } else if idx > 0 {
                idx - 1
            } else {
                1
            }].output
            &&& t.monitors[t.primary].output == s.monitors[if s.primary != idx {
                s.primary
            } else if idx > 0 {
                idx - 1
            } else {
                1
            }].output
            &&& t.acts.active == s.acts.active
        }),
{
    let s1 = s.note_strips(idx);
    let r = s1.remove_output(idx);
    let t = r.mended();
    lemma_act(s.acts, s.acts.active);
    assert(s.view_of(
        s.acts.list[s.acts.pos(s.acts.active).unwrap()].id,
        s.monitors[idx].output.id,
    ) is Some);
    crate::mending::lemma_mended_leads(r);
    lemma_remove_output_frame(s1, idx);
    lemma_disconnect(s, idx);
    let rest = s.monitors.remove(idx);
    assert forall|k: int| 0 <= k < rest.len() implies #[trigger] rest[k] == s.monitors[if k < idx {
        k
    } else {
        k + 1
    }] by {}
    assert(t.focused == index_after(s.focused, idx));
    assert(t.primary == index_after(s.primary, idx));
    assert(t.monitors[t.focused].output == rest[t.focused].output);
    assert(t.monitors[t.primary].output == rest[t.primary].output);
}

} // verus!
