//! Every operation keeps the layout whole and in order.

use vstd::prelude::*;

use crate::arrange::{lemma_attach_leads, lemma_detach_leads, lemma_rehome_leads};
use crate::bookends::{lemma_mint_into_leads, lemma_normalize_leads};
use crate::carrying::{
    law_activating_keeps_coherence, law_moving_across_keeps_coherence,
    law_moving_by_one_keeps_coherence, law_moving_columns_across_keeps_coherence,
    law_moving_columns_by_one_keeps_coherence, law_moving_columns_within_keeps_coherence,
    law_moving_out_of_sight_keeps_coherence, law_moving_to_new_keeps_coherence,
    law_moving_within_keeps_coherence, law_opening_beside_keeps_coherence,
    law_switching_workspaces_keeps_coherence,
};
use crate::census::{lemma_mended_load, lemma_mended_order, lemma_tally, tally, tiles_of};
use crate::coherence::lemma_view_is_ok;
use crate::cores::apart;
use crate::ids::{ActivityId, OutputId, WindowId, WorkspaceId};
use crate::interactive::{DragMotion, DropPlace};
use crate::gestures::Reached;
use crate::layout::{on_output, DndHoldTarget, InteractiveMoveState, LayoutModel};
use crate::mending::lemma_mended_leads;
use crate::moves::{lemma_carry_leads, lemma_place_resolved_leads, lemma_tidy_leads};
use crate::reclaim::{lemma_clean_up_leads, lemma_with_view_leads};
use crate::retaining::{lemma_mended_mindful, retains};
use crate::search::{find, lemma_find_from};
use crate::view::ViewModel;
use crate::wholeness::law_mending_makes_whole;
use crate::windows::{id_having, lemma_focus_on_leads, ActivateWindow, AddWindowTarget};
use crate::workspace::{Output, Tile};

verus! {

/// `s` and `t` have the same outputs connected.
pub open spec fn level(s: LayoutModel, t: LayoutModel) -> bool {
    &&& t.monitors.len() == s.monitors.len()
    &&& forall|i: int|
        0 <= i < s.monitors.len() ==> (#[trigger] s.monitors[i]).output == t.monitors[i].output
}

/// With the same outputs and everyone in place, mending makes the layout whole.
pub proof fn lemma_lasts(s: LayoutModel, t: LayoutModel)
    requires
        s.whole(),
        t.staffed(),
        level(s, t),
        t.mended().fits(),
    ensures
        t.mended().whole(),
        t.orderly() ==> t.mended().orderly(),
        t.mindful() ==> t.mended().mindful(),
        retains(s, t) && s.mindful() ==> t.mended().mindful(),
{
    lemma_mended_order(t);
    assert forall|i: int| 0 <= i < t.monitors.len() implies (#[trigger] t.monitors[i]).output.id.0
        != 0 by {
        assert(s.monitors[i].output == t.monitors[i].output);
    }
    assert forall|i: int, j: int| 0 <= i < j < t.monitors.len() implies apart(
        (#[trigger] t.monitors[i]).output,
        (#[trigger] t.monitors[j]).output,
    ) by {
        assert(s.monitors[i].output == t.monitors[i].output);
        assert(s.monitors[j].output == t.monitors[j].output);
        assert(apart(s.monitors[i].output, s.monitors[j].output));
    }
    law_mending_makes_whole(t);
    lemma_mended_mindful(s, t);
    lemma_mended_mindful(t, t);
}

/// A view put in place with its bookends leaves the outputs alone.
pub proof fn lemma_rearrange_level(s: LayoutModel, mon: int, v: ViewModel, low: int, high: int)
    requires
        0 <= mon < s.monitors.len(),
    ensures
        level(s, s.rearrange(mon, v, low, high)),
{
    broadcast use {lemma_with_view_leads, lemma_mint_into_leads, lemma_clean_up_leads};

    let m = s.monitors[mon];
    let s1 = s.with_view(s.acts.active, m.output.id, v);
    assert(s.leads_to(s1));
    let s2 = if high == v.ids.len() - 1 {
        s1.add_workspace_bottom(mon)
    } else {
        s1
    };
    assert(s1.leads_to(s2));
    let s3 = if m.empty_workspace_above_first && low == 0 {
        s2.add_workspace_top(mon)
    } else {
        s2
    };
    assert(s2.leads_to(s3));
    let s4 = s3.settle(mon);
    let t = s4.clean_up(mon);
    assert(s4.leads_to(t));
    assert forall|i: int| 0 <= i < s.monitors.len() implies (#[trigger] s.monitors[i]).output
        == t.monitors[i].output by {
        assert(s1.monitors[i].output == s2.monitors[i].output);
        assert(s2.monitors[i].output == s3.monitors[i].output);
        assert(s3.monitors[i].output == s4.monitors[i].output);
        assert(s4.monitors[i].output == t.monitors[i].output);
    }
}

/// Exchanging the active workspace with its neighbour keeps the layout whole and in order.
pub proof fn law_reordering_keeps_whole(s: LayoutModel)
    requires
        s.whole(),
        s.monitors.len() > 0,
    ensures
        s.sink(s.focused).mended().fits() ==> s.sink(s.focused).mended().whole(),
        s.sink(s.focused).mended().fits() && s.mindful() ==> s.sink(s.focused).mended().mindful(),
        s.sink(s.focused).mended().fits() && s.orderly() ==> s.sink(s.focused).mended().orderly(),
        s.raise(s.focused).mended().fits() ==> s.raise(s.focused).mended().whole(),
        s.raise(s.focused).mended().fits() && s.mindful() ==> s.raise(s.focused).mended().mindful(),
        s.raise(s.focused).mended().fits() && s.orderly() ==> s.raise(s.focused).mended().orderly(),
{
    crate::ordering::lemma_reorder_order(s, s.focused, 0, 0);
    crate::ordering::lemma_orders(s, s.sink(s.focused));
    crate::ordering::lemma_orders(s, s.raise(s.focused));
    let mon = s.focused;
    let o = s.monitors[mon].output;
    lemma_mended_leads(s.sink(mon));
    lemma_mended_leads(s.raise(mon));
    if let Some(v) = s.active_view(o.id) {
        let a = v.active_position();
        if s.sink(mon).mended().fits() {
            if a + 1 < v.ids.len() {
                crate::reordering::law_sinking_swaps(s, mon, o);
                lemma_rearrange_level(s, mon, v.swap(a, a + 1), a, a + 1);
            }
            crate::retaining::lemma_reorder_retains(s, mon, 0, 0);
            lemma_lasts(s, s.sink(mon));
        }
        if s.raise(mon).mended().fits() {
            if 0 < a < v.ids.len() {
                crate::reordering::law_raising_swaps(s, mon, o);
                lemma_rearrange_level(s, mon, v.swap(a, a - 1), a - 1, a);
            }
            crate::retaining::lemma_reorder_retains(s, mon, 0, 0);
            lemma_lasts(s, s.raise(mon));
        }
    } else {
        if s.sink(mon).mended().fits() {
            crate::retaining::lemma_reorder_retains(s, mon, 0, 0);
            lemma_lasts(s, s.sink(mon));
        }
        if s.raise(mon).mended().fits() {
            crate::retaining::lemma_reorder_retains(s, mon, 0, 0);
            lemma_lasts(s, s.raise(mon));
        }
    }
}

/// Where the active workspace of a monitor is.
pub proof fn lemma_active_position(s: LayoutModel, mon: int)
    requires
        s.coherent(),
    ensures
        0 <= s.active_place(mon).1,
        match s.active_view(s.monitors[mon].output.id) {
            Some(v) => s.active_place(mon).1 < v.ids.len(),
            None => true,
        },
{
    let out = s.monitors[mon].output.id;
    lemma_view_is_ok(s, s.acts.active, out);
    if let Some(v) = s.active_view(out) {
        lemma_find_from(v.ids, crate::search::equal_to(v.active), 0);
        let k = choose|k: int| 0 <= k < v.ids.len() && v.ids[k] == v.active;
        assert(crate::search::equal_to(v.active)(v.ids[k]));
    }
}

/// Moving a workspace to another place of its monitor keeps the layout whole and in order.
pub proof fn law_moving_to_a_place_keeps_whole(
    s: LayoutModel,
    r: Option<(Option<OutputId>, int)>,
    to: int,
)
    requires
        s.whole(),
        0 <= to,
        match r {
            Some((_, idx)) => 0 <= idx,
            None => true,
        },
        s.move_workspace_to_idx(r, to).mended().fits(),
    ensures
        s.move_workspace_to_idx(r, to).mended().whole(),
        s.mindful() ==> s.move_workspace_to_idx(r, to).mended().mindful(),
        s.orderly() ==> s.move_workspace_to_idx(r, to).mended().orderly(),
{
    let t = s.move_workspace_to_idx(r, to);
    lemma_mended_leads(t);
    if s.monitors.len() > 0 {
        if let Some((mon, from)) = s.reorder_place(r) {
            assert(0 <= mon < s.monitors.len()) by {
                if let Some((out, idx)) = r {
                    if let Some(out) = out {
                        lemma_find_from(s.monitors, on_output(out), 0);
                    }
                }
            }
            crate::ordering::lemma_reorder_order(s, mon, from, to);
            crate::retaining::lemma_reorder_retains(s, mon, from, to);
            crate::ordering::lemma_orders(s, t);
            lemma_active_position(s, mon);
            assert(0 <= from);
            if let Some(v) = s.active_view(s.monitors[mon].output.id) {
                let n = v.ids.len();
                let at = if to < n {
                    to
                } else {
                    n - 1
                };
                if from < n && from != at {
                    crate::reordering::law_relocating_moves(s, mon, from, to, s.monitors[mon].output);
                    if from < at {
                        lemma_rearrange_level(s, mon, v.move_within(from, at), from, at);
                    } else {
                        lemma_rearrange_level(s, mon, v.move_within(from, at), at, from);
                    }
                }
            }
        }
    }
    lemma_lasts(s, t);
}

/// Moving a workspace to another output keeps the layout whole and in order.
pub proof fn law_moving_a_workspace_keeps_whole(s: LayoutModel, mon: int, idx: int, mon2: int)
    requires
        s.whole(),
        0 <= mon < s.monitors.len(),
        0 <= mon2 < s.monitors.len(),
        0 <= idx,
        s.transfer(mon, idx, mon2).mended().fits(),
    ensures
        s.transfer(mon, idx, mon2).mended().whole(),
        s.orderly() ==> s.transfer(mon, idx, mon2).mended().orderly(),
{
    crate::ordering::lemma_transfer_order(s, mon, idx, mon2);
    crate::ordering::lemma_orders(s, s.transfer(mon, idx, mon2));
    let t = s.transfer(mon, idx, mon2);
    lemma_mended_leads(t);
    crate::tending::law_moving_a_workspace_keeps_coherence(s, mon, idx, mon2);
    let from = s.monitors[mon].output.id;
    let to = s.monitors[mon2].output.id;
    if let Some(v) = s.active_view(from) {
        if idx < v.ids.len() && mon != mon2 {
            let id = v.ids[idx];
            let at = s.active_place(mon2).1 + 1;
            let activate = s.is_focused_place(mon, idx);
            let a = s.detach(mon, idx);
            lemma_detach_leads(s, mon, idx);
            let b = LayoutModel { pool: a.pool.set_output(id, Some(to)), ..a };
            let c = b.attach(mon2, id, at, activate);
            lemma_attach_leads(b, mon2, id, at, activate);
            lemma_rehome_leads(c, c.activities_of(id), id, from, to);
            let d = c.rehome(c.activities_of(id), id, from, to);
            assert forall|i: int| 0 <= i < s.monitors.len() implies (
            #[trigger] s.monitors[i]).output == t.monitors[i].output by {
                assert(s.monitors[i].output == a.monitors[i].output);
                assert(b.monitors[i].output == c.monitors[i].output);
                assert(c.monitors[i].output == d.monitors[i].output);
            }
        }
    }
    lemma_lasts(s, t);
}

/// Naming a workspace keeps the layout whole and in order.
pub proof fn law_naming_keeps_whole(
    s: LayoutModel,
    name: Seq<char>,
    r: Option<crate::lookup::WorkspaceReference>,
)
    requires
        s.whole(),
        s.set_workspace_name(name, r).mended().fits(),
    ensures
        s.set_workspace_name(name, r).mended().whole(),
        s.mindful() ==> s.set_workspace_name(name, r).mended().mindful(),
        s.orderly() ==> s.set_workspace_name(name, r).mended().orderly(),
{
    crate::ordering::lemma_naming_order(s, name, r);
    crate::ordering::lemma_orders(s, s.set_workspace_name(name, r));
    broadcast use lemma_mint_into_leads;

    let t = s.set_workspace_name(name, r);
    lemma_mended_leads(t);
    if s.named_workspace(name) is None {
        if let Some(id) = s.referred_or_active(r) {
            lemma_referred(s, r);
            crate::upholding::law_naming_names_only(s, id, name);
            let s1 = LayoutModel { pool: s.pool.set_name(id, Some(name)), ..s };
            if let Some(mon) = s1.monitor_holding(id) {
                lemma_find_from(s1.monitors, s1.held_on(id), 0);
                let m = s1.monitors[mon];
                let v = s1.active_view(m.output.id);
                let top = m.empty_workspace_above_first && v is Some && v.unwrap().ids.len() > 0
                    && v.unwrap().ids[0] == id;
                let bottom = v is Some && v.unwrap().ids.len() > 0 && v.unwrap().ids.last() == id;
                let s2 = if top {
                    s1.add_workspace_top(mon)
                } else {
                    s1
                };
                assert(s1.leads_to(s2));
                let s3 = if bottom {
                    s2.add_workspace_bottom(mon)
                } else {
                    s2
                };
                assert(s2.leads_to(s3));
                lemma_normalize_leads(s3);
                assert(s3.leads_to(t));
                assert forall|i: int| 0 <= i < s.monitors.len() implies (
                #[trigger] s.monitors[i]).output == t.monitors[i].output by {
                    assert(s1.monitors[i].output == s2.monitors[i].output);
                    assert(s2.monitors[i].output == s3.monitors[i].output);
                    assert(s3.monitors[i].output == t.monitors[i].output);
                }
            }
        }
    }
    crate::retaining::lemma_naming_retains(s, name, r);
    lemma_lasts(s, t);
}

/// What a reference resolves to is in the pool.
pub proof fn lemma_referred(s: LayoutModel, r: Option<crate::lookup::WorkspaceReference>)
    requires
        s.coherent(),
    ensures
        match s.referred_or_active(r) {
            Some(id) => s.pool.has(id),
            None => true,
        },
{
    if let Some(crate::lookup::WorkspaceReference::Name(n)) = r {
        let p = crate::lookup::by_name(n@);
        lemma_find_from(s.pool.items, p, 0);
        if let Some(i) = crate::search::find(s.pool.items, p) {
            crate::coherence::lemma_pos_of(s.pool, i);
        }
    }
}

/// What waits is shown by nobody.
pub proof fn lemma_waits_unseen(s: LayoutModel)
    requires
        s.whole(),
    ensures
        s.waits_unseen(),
{
    assert forall|i: int| 0 <= i < s.parked.len() implies s.unseen(#[trigger] s.parked[i]) by {
        let x = s.parked[i];
        assert(s.monitors.len() == 0);
        assert forall|a: ActivityId, o: OutputId| #[trigger] s.view_of(a, o) is None by {
            lemma_find_from(s.monitors, on_output(o), 0);
        }
    }
}

/// Taking a workspace's name away keeps the layout whole and in order.
pub proof fn law_unnaming_keeps_whole(s: LayoutModel, id: WorkspaceId)
    requires
        s.whole(),
        s.unname(id).mended().fits(),
    ensures
        s.unname(id).mended().whole(),
        s.mindful() ==> s.unname(id).mended().mindful(),
        s.orderly() ==> s.unname(id).mended().orderly(),
{
    crate::ordering::lemma_unnaming_order(s, id);
    crate::ordering::lemma_orders(s, s.unname(id));
    broadcast use lemma_tidy_leads;

    let t = s.unname(id);
    lemma_waits_unseen(s);
    crate::upholding::law_unnaming_keeps_coherence(s, id);
    if let Some(mon) = s.monitor_showing(id) {
        let a = LayoutModel { pool: s.pool.set_name(id, None), ..s };
        assert(a.leads_to(t));
        assert forall|i: int| 0 <= i < s.monitors.len() implies (#[trigger] s.monitors[i]).output
            == t.monitors[i].output by {
            assert(a.monitors[i].output == t.monitors[i].output);
        }
    }
    crate::retaining::lemma_unnaming_retains(s, id);
    lemma_lasts(s, t);
}

/// Switching workspaces keeps the layout whole and in order.
pub proof fn law_switching_workspaces_keeps_whole(s: LayoutModel, idx: int)
    requires
        s.whole(),
    ensures
        s.switch_to(idx).mended().fits() ==> s.switch_to(idx).mended().whole(),
        s.switch_to(idx).mended().fits() && s.mindful() ==> s.switch_to(idx).mended().mindful(),
        s.switch_to(idx).mended().fits() && s.orderly() ==> s.switch_to(idx).mended().orderly(),
        s.switch_back().mended().fits() ==> s.switch_back().mended().whole(),
        s.switch_back().mended().fits() && s.mindful() ==> s.switch_back().mended().mindful(),
        s.switch_back().mended().fits() && s.orderly() ==> s.switch_back().mended().orderly(),
        s.switch_to_or_back(idx).mended().fits() ==> s.switch_to_or_back(idx).mended().whole(),
        s.switch_to_or_back(idx).mended().fits() && s.mindful()
            ==> s.switch_to_or_back(idx).mended().mindful(),
        s.switch_to_or_back(idx).mended().fits() && s.orderly()
            ==> s.switch_to_or_back(idx).mended().orderly(),
        s.switch_up().mended().fits() ==> s.switch_up().mended().whole(),
        s.switch_up().mended().fits() && s.mindful() ==> s.switch_up().mended().mindful(),
        s.switch_up().mended().fits() && s.orderly() ==> s.switch_up().mended().orderly(),
        s.switch_down().mended().fits() ==> s.switch_down().mended().whole(),
        s.switch_down().mended().fits() && s.mindful() ==> s.switch_down().mended().mindful(),
        s.switch_down().mended().fits() && s.orderly() ==> s.switch_down().mended().orderly(),
{
    assert forall|i: int| s.orderly() implies (#[trigger] s.switch_to(i)).orderly() by {
        if s.monitors.len() > 0 {
            crate::ordering::lemma_focus_order(s, s.focused, i);
            crate::ordering::lemma_orders(s, s.focus_on(s.focused, i));
            let last = s.view_len(s.focused) - 1;
            crate::ordering::lemma_focus_order(s, s.focused, last);
            crate::ordering::lemma_orders(s, s.focus_on(s.focused, last));
        }
    }
    law_switching_workspaces_keeps_coherence(s, idx);
    assert forall|i: int| level(s, #[trigger] s.switch_to(i)) by {
        lemma_switch_to_level(s, i);
    }
    if s.switch_to(idx).mended().fits() {
        assert forall|i: int| retains(s, #[trigger] s.switch_to(i)) by {
            lemma_switch_to_retains(s, i);
        }
        lemma_lasts(s, s.switch_to(idx));
    }
    if s.switch_back().mended().fits() {
        assert forall|i: int| retains(s, #[trigger] s.switch_to(i)) by {
            lemma_switch_to_retains(s, i);
        }
        lemma_lasts(s, s.switch_back());
    }
    if s.switch_to_or_back(idx).mended().fits() {
        assert forall|i: int| retains(s, #[trigger] s.switch_to(i)) by {
            lemma_switch_to_retains(s, i);
        }
        lemma_lasts(s, s.switch_to_or_back(idx));
    }
    if s.switch_up().mended().fits() {
        assert forall|i: int| retains(s, #[trigger] s.switch_to(i)) by {
            lemma_switch_to_retains(s, i);
        }
        lemma_lasts(s, s.switch_up());
    }
    if s.switch_down().mended().fits() {
        assert forall|i: int| retains(s, #[trigger] s.switch_to(i)) by {
            lemma_switch_to_retains(s, i);
        }
        lemma_lasts(s, s.switch_down());
    }
}

/// Switching to a workspace leaves windows, drag and bookmarks alone.
pub proof fn lemma_switch_to_retains(s: LayoutModel, idx: int)
    requires
        s.pointed(),
    ensures
        retains(s, s.switch_to(idx)),
{
    if s.monitors.len() > 0 {
        crate::retaining::lemma_focus_retains(s, s.focused, idx);
        crate::retaining::lemma_focus_retains(s, s.focused, s.view_len(s.focused) - 1);
    }
}

/// Switching to a workspace leaves the outputs alone.
pub proof fn lemma_switch_to_level(s: LayoutModel, idx: int)
    requires
        s.pointed(),
    ensures
        level(s, s.switch_to(idx)),
{
    if s.monitors.len() > 0 {
        lemma_focus_on_leads(s, s.focused, idx);
        lemma_focus_on_leads(s, s.focused, s.view_len(s.focused) - 1);
    }
}

/// Making a workspace active keeps the layout whole and in order.
pub proof fn law_focusing_keeps_whole(s: LayoutModel, mon: int, idx: int)
    requires
        s.whole(),
        0 <= mon < s.monitors.len(),
        s.focus_on(mon, idx).mended().fits(),
    ensures
        s.focus_on(mon, idx).mended().whole(),
        s.mindful() ==> s.focus_on(mon, idx).mended().mindful(),
        s.orderly() ==> s.focus_on(mon, idx).mended().orderly(),
{
    crate::ordering::lemma_focus_order(s, mon, idx);
    crate::ordering::lemma_orders(s, s.focus_on(mon, idx));
    lemma_focus_on_leads(s, mon, idx);
    crate::placing::lemma_focus_on(s, mon, idx);
    crate::retaining::lemma_focus_retains(s, mon, idx);
    lemma_lasts(s, s.focus_on(mon, idx));
}

/// Where a command about a window is carried out.
pub proof fn lemma_command_monitor(s: LayoutModel, window: Option<WindowId>)
    requires
        s.pointed(),
    ensures
        match s.command_place(window) {
            Some((mon, _)) => 0 <= mon < s.monitors.len(),
            None => true,
        },
{
    if let Some(w) = window {
        lemma_find_from(s.monitors, s.showing_window(w), 0);
    }
}

/// Moving a window to another workspace of its monitor keeps the layout whole and in order.
pub proof fn law_moving_within_keeps_whole(
    s: LayoutModel,
    window: Option<WindowId>,
    idx: int,
    activate: ActivateWindow,
)
    requires
        s.whole(),
        s.move_to_workspace(window, idx, activate).mended().fits(),
    ensures
        s.move_to_workspace(window, idx, activate).mended().whole(),
        s.mindful() && 0 <= idx ==> s.move_to_workspace(window, idx, activate).mended().mindful(),
        s.orderly() ==> s.move_to_workspace(window, idx, activate).mended().orderly(),
{
    crate::ordering::lemma_move_within_order(s, window, idx, activate);
    crate::ordering::lemma_orders(s, s.move_to_workspace(window, idx, activate));
    broadcast use {lemma_carry_leads, lemma_tidy_leads};

    let t = s.move_to_workspace(window, idx, activate);
    lemma_mended_leads(t);
    law_moving_within_keeps_coherence(s, window, idx, activate);
    lemma_command_monitor(s, window);
    if 0 <= idx {
        crate::retaining::lemma_move_within_retains(s, window, idx, activate);
    }
    lemma_lasts(s, t);
}

/// Moving a window to another output keeps the layout whole and in order.
pub proof fn law_moving_across_keeps_whole(
    s: LayoutModel,
    window: Option<WindowId>,
    mon2: int,
    idx: Option<int>,
    activate: ActivateWindow,
)
    requires
        s.whole(),
        0 <= mon2 < s.monitors.len(),
        s.move_to_output(window, mon2, idx, activate).mended().fits(),
    ensures
        s.move_to_output(window, mon2, idx, activate).mended().whole(),
        s.mindful() && (idx is Some
            ==> 0 <= idx.unwrap()) ==> s.move_to_output(window, mon2, idx, activate).mended().mindful(),
        s.orderly() ==> s.move_to_output(window, mon2, idx, activate).mended().orderly(),
{
    crate::ordering::lemma_move_to_output_order(s, window, mon2, idx, activate);
    crate::ordering::lemma_orders(s, s.move_to_output(window, mon2, idx, activate));
    let t = s.move_to_output(window, mon2, idx, activate);
    lemma_mended_leads(t);
    law_moving_across_keeps_coherence(s, window, mon2, idx, activate);
    lemma_move_to_output_level(s, window, mon2, idx, activate);
    if idx is Some ==> 0 <= idx.unwrap() {
        crate::retaining::lemma_move_across_retains(s, window, mon2, idx, activate);
    }
    lemma_lasts(s, t);
}

/// Moving a window to another output leaves the outputs alone.
pub proof fn lemma_move_to_output_level(
    s: LayoutModel,
    window: Option<WindowId>,
    mon2: int,
    idx: Option<int>,
    activate: ActivateWindow,
)
    requires
        0 <= mon2 < s.monitors.len(),
    ensures
        level(s, s.move_to_output(window, mon2, idx, activate)),
{
    broadcast use {lemma_carry_leads, lemma_tidy_leads};

}

/// Moving a window to the workspace above or below keeps the layout whole and in order.
pub proof fn law_moving_by_one_keeps_whole(s: LayoutModel, focus: bool)
    requires
        s.whole(),
    ensures
        s.move_up(focus).mended().fits() ==> s.move_up(focus).mended().whole(),
        s.move_up(focus).mended().fits() && s.mindful() ==> s.move_up(focus).mended().mindful(),
        s.move_up(focus).mended().fits() && s.orderly() ==> s.move_up(focus).mended().orderly(),
        s.move_down(focus).mended().fits() ==> s.move_down(focus).mended().whole(),
        s.move_down(focus).mended().fits() && s.mindful() ==> s.move_down(focus).mended().mindful(),
        s.move_down(focus).mended().fits() && s.orderly() ==> s.move_down(focus).mended().orderly(),
{
    crate::ordering::lemma_by_one_order(s, focus);
    crate::ordering::lemma_orders(s, s.move_up(focus));
    crate::ordering::lemma_orders(s, s.move_down(focus));
    broadcast use lemma_carry_leads;

    lemma_mended_leads(s.move_up(focus));
    lemma_mended_leads(s.move_down(focus));
    law_moving_by_one_keeps_coherence(s, focus);
    if s.move_up(focus).mended().fits() {
        crate::retaining::lemma_by_one_retains(s, focus);
        lemma_lasts(s, s.move_up(focus));
    }
    if s.move_down(focus).mended().fits() {
        crate::retaining::lemma_by_one_retains(s, focus);
        lemma_lasts(s, s.move_down(focus));
    }
}

/// Moving a window to a new workspace keeps the layout whole and in order.
pub proof fn law_moving_to_new_keeps_whole(s: LayoutModel, focus: bool, below: int)
    requires
        s.whole(),
        0 <= below,
        s.move_new(focus, below).mended().fits(),
    ensures
        s.move_new(focus, below).mended().whole(),
        s.orderly() ==> s.move_new(focus, below).mended().orderly(),
{
    crate::ordering::lemma_move_new_order(s, focus, below);
    crate::ordering::lemma_orders(s, s.move_new(focus, below));
    broadcast use {lemma_place_resolved_leads, lemma_mint_into_leads, lemma_tidy_leads};

    let t = s.move_new(focus, below);
    lemma_mended_leads(t);
    law_moving_to_new_keeps_coherence(s, focus, below);
    lemma_lasts(s, t);
}

/// Opening a workspace beside the focused one keeps the layout whole and in order.
pub proof fn law_opening_beside_keeps_whole(s: LayoutModel, below: int)
    requires
        s.whole(),
        0 <= below,
        s.open_beside(below).mended().fits(),
    ensures
        s.open_beside(below).mended().whole(),
        s.mindful() ==> s.open_beside(below).mended().mindful(),
        s.orderly() ==> s.open_beside(below).mended().orderly(),
{
    crate::ordering::lemma_open_beside_order(s, below);
    crate::ordering::lemma_orders(s, s.open_beside(below));
    broadcast use {lemma_focus_on_leads, lemma_mint_into_leads, lemma_tidy_leads};

    let t = s.open_beside(below);
    lemma_mended_leads(t);
    law_opening_beside_keeps_coherence(s, below);
    crate::retaining::lemma_open_beside_retains(s, below);
    lemma_lasts(s, t);
}

/// Putting a column on a workspace leaves the outputs alone.
pub proof fn lemma_carry_column_level(
    s: LayoutModel,
    mon: int,
    from: int,
    mon2: int,
    to: int,
    activate: bool,
)
    requires
        0 <= mon2 < s.monitors.len(),
    ensures
        level(s, s.carry_column(mon, from, mon2, to, activate)),
{
    broadcast use lemma_focus_on_leads;

}

/// Moving a column to the workspace above or below keeps the layout whole and in order.
pub proof fn law_moving_columns_by_one_keeps_whole(s: LayoutModel, activate: bool)
    requires
        s.whole(),
    ensures
        s.column_up(activate).mended().fits() ==> s.column_up(activate).mended().whole(),
        s.column_up(activate).mended().fits() && s.mindful()
            ==> s.column_up(activate).mended().mindful(),
        s.column_up(activate).mended().fits() && s.orderly()
            ==> s.column_up(activate).mended().orderly(),
        s.column_down(activate).mended().fits() ==> s.column_down(activate).mended().whole(),
        s.column_down(activate).mended().fits() && s.mindful()
            ==> s.column_down(activate).mended().mindful(),
        s.column_down(activate).mended().fits() && s.orderly()
            ==> s.column_down(activate).mended().orderly(),
{
    crate::ordering::lemma_columns_by_one_order(s, activate);
    crate::ordering::lemma_orders(s, s.column_up(activate));
    crate::ordering::lemma_orders(s, s.column_down(activate));
    broadcast use {lemma_carry_leads, lemma_normalize_leads};

    let mon = s.focused;
    let from = s.active_place(mon).1;
    lemma_mended_leads(s.column_up(activate));
    lemma_mended_leads(s.column_down(activate));
    law_moving_columns_by_one_keeps_coherence(s, activate);
    if s.monitors.len() > 0 {
        lemma_carry_column_level(s, mon, from, mon, from - 1, activate);
        lemma_carry_column_level(s, mon, from, mon, from + 1, activate);
    }
    if s.column_up(activate).mended().fits() {
        crate::retaining::lemma_columns_by_one_retains(s, activate);
        lemma_lasts(s, s.column_up(activate));
    }
    if s.column_down(activate).mended().fits() {
        crate::retaining::lemma_columns_by_one_retains(s, activate);
        lemma_lasts(s, s.column_down(activate));
    }
}

/// Moving a column to another workspace of its monitor keeps the layout whole and in order.
pub proof fn law_moving_columns_within_keeps_whole(s: LayoutModel, idx: int, activate: bool)
    requires
        s.whole(),
        s.monitors.len() > 0,
        s.move_column_to_workspace(idx, activate).mended().fits(),
    ensures
        s.move_column_to_workspace(idx, activate).mended().whole(),
        s.mindful() && 0 <= idx ==> s.move_column_to_workspace(idx, activate).mended().mindful(),
        s.orderly() ==> s.move_column_to_workspace(idx, activate).mended().orderly(),
{
    crate::ordering::lemma_columns_within_order(s, idx, activate);
    crate::ordering::lemma_orders(s, s.move_column_to_workspace(idx, activate));
    broadcast use {lemma_carry_leads, lemma_normalize_leads, lemma_tidy_leads};

    let t = s.move_column_to_workspace(idx, activate);
    let mon = s.focused;
    let n = s.view_len(mon);
    lemma_mended_leads(t);
    law_moving_columns_within_keeps_coherence(s, idx, activate);
    lemma_carry_column_level(
        s,
        mon,
        s.active_place(mon).1,
        mon,
        if idx < n {
            idx
        } else {
            n - 1
        },
        activate,
    );
    if 0 <= idx {
        crate::retaining::lemma_columns_within_retains(s, idx, activate);
    }
    lemma_lasts(s, t);
}

/// Whether the windows of `column` are nowhere in the layout, and each once in the column.
pub open spec fn all_new(s: LayoutModel, column: Seq<Tile>) -> bool {
    forall|w: WindowId| s.census(w) + #[trigger] tiles_of(column, w) <= 1
}

/// Adding a column keeps the layout whole and in order.
pub proof fn law_adding_a_column_keeps_whole(
    s: LayoutModel,
    mon: int,
    idx: int,
    column: Seq<Tile>,
    head: Option<WindowId>,
    activate: bool,
)
    requires
        s.whole(),
        0 <= mon < s.monitors.len(),
        s.add_column(mon, idx, column, head, activate).mended().fits(),
    ensures
        s.add_column(mon, idx, column, head, activate).mended().whole(),
        s.mindful() ==> s.add_column(mon, idx, column, head, activate).mended().mindful(),
        s.orderly() && all_new(s, column)
            ==> s.add_column(mon, idx, column, head, activate).mended().orderly(),
{
    if s.orderly() && all_new(s, column) {
        crate::ordering::lemma_add_column_order(s, mon, idx, column, head, activate);
    }
    broadcast use {lemma_focus_on_leads, lemma_normalize_leads};

    let a = s.put_column(mon, idx, column, head, activate);
    let b = LayoutModel {
        focused: if activate {
            mon
        } else {
            a.focused
        },
        ..a
    };
    let t = s.add_column(mon, idx, column, head, activate);
    lemma_mended_leads(t);
    crate::carrying::lemma_put_column(s, mon, idx, column, head, activate);
    assert(level(s, a));
    assert(b.coherent());
    crate::keeping::lemma_normalize_mons(b, b.monitors.len() as int);
    assert(level(b, t));
    crate::retaining::lemma_add_column_retains(s, mon, idx, column, head, activate);
    lemma_lasts(s, t);
}

/// Moving a column to another output keeps the layout whole and in order.
pub proof fn law_moving_columns_across_keeps_whole(
    s: LayoutModel,
    mon2: int,
    idx: Option<int>,
    activate: bool,
)
    requires
        s.whole(),
        0 <= mon2 < s.monitors.len(),
        s.move_column_to_output(mon2, idx, activate).mended().fits(),
    ensures
        s.move_column_to_output(mon2, idx, activate).mended().whole(),
        s.mindful() ==> s.move_column_to_output(mon2, idx, activate).mended().mindful(),
        s.orderly() ==> s.move_column_to_output(mon2, idx, activate).mended().orderly(),
{
    crate::ordering::lemma_columns_across_order(s, mon2, idx, activate);
    crate::ordering::lemma_orders(s, s.move_column_to_output(mon2, idx, activate));
    broadcast use lemma_normalize_leads;

    let t = s.move_column_to_output(mon2, idx, activate);
    let mon = s.focused;
    let n = s.view_len(mon2);
    let want = match idx {
        Some(i) => i,
        None => s.active_place(mon2).1,
    };
    lemma_mended_leads(t);
    law_moving_columns_across_keeps_coherence(s, mon2, idx, activate);
    lemma_move_to_output_level(s, None, mon2, None, ActivateWindow::Smart);
    lemma_carry_column_level(
        s,
        mon,
        s.active_place(mon).1,
        mon2,
        if want < n {
            want
        } else {
            n - 1
        },
        activate,
    );
    crate::retaining::lemma_columns_across_retains(s, mon2, idx, activate);
    lemma_lasts(s, t);
}

/// Moving a window to a workspace that is not on screen keeps the layout whole and in order.
pub proof fn law_moving_out_of_sight_keeps_whole(
    s: LayoutModel,
    window: Option<WindowId>,
    id: WorkspaceId,
    activate: ActivateWindow,
)
    requires
        s.whole(),
        s.pool_move(window, id.0) is Ok,
        s.pool_move(window, id.0)->Ok_0 is MovedDormant,
        s.move_to_pool(window, id, activate).mended().fits(),
    ensures
        s.move_to_pool(window, id, activate).mended().whole(),
        s.mindful() ==> s.move_to_pool(window, id, activate).mended().mindful(),
        s.orderly() ==> s.move_to_pool(window, id, activate).mended().orderly(),
{
    crate::ordering::lemma_move_to_pool_order(s, window, id, activate);
    crate::ordering::lemma_orders(s, s.move_to_pool(window, id, activate));
    broadcast use {lemma_normalize_leads, lemma_tidy_leads};

    let t = s.move_to_pool(window, id, activate);
    lemma_mended_leads(t);
    law_moving_out_of_sight_keeps_coherence(s, window, id, activate);
    crate::retaining::lemma_move_to_pool_retains(s, window, id, activate);
    lemma_lasts(s, t);
}

/// Activating a window keeps the layout whole and in order.
pub proof fn law_activating_keeps_whole(s: LayoutModel, w: WindowId)
    requires
        s.whole(),
        s.activate_window(w).mended().fits(),
    ensures
        s.activate_window(w).mended().whole(),
        s.mindful() ==> s.activate_window(w).mended().mindful(),
        s.orderly() ==> s.activate_window(w).mended().orderly(),
{
    crate::ordering::lemma_activate_order(s, w);
    crate::ordering::lemma_orders(s, s.activate_window(w));
    broadcast use lemma_focus_on_leads;

    lemma_find_from(s.monitors, s.showing_window(w), 0);
    law_activating_keeps_coherence(s, w);
    crate::retaining::lemma_activate_retains(s, w);
    lemma_lasts(s, s.activate_window(w));
}

/// Adding a window keeps the layout whole and in order.
pub proof fn law_adding_keeps_whole(
    s: LayoutModel,
    tile: Tile,
    target: AddWindowTarget,
    activate: ActivateWindow,
)
    requires
        s.whole(),
        s.add_window(tile, target, activate).mended().fits(),
    ensures
        s.add_window(tile, target, activate).mended().whole(),
        s.mindful() ==> s.add_window(tile, target, activate).mended().mindful(),
        s.orderly() && s.census(tile.window.id) == 0
            ==> s.add_window(tile, target, activate).mended().orderly(),
{
    if s.census(tile.window.id) <= 0 {
        crate::ordering::lemma_add_order(s, tile, target, activate);
    }
    broadcast use {lemma_place_resolved_leads, lemma_normalize_leads};

    let t = s.add_window(tile, target, activate);
    lemma_mended_leads(t);
    crate::upholding::law_adding_keeps_coherence(s, tile, target, activate);
    if s.monitors.len() > 0 {
        crate::upholding::lemma_add_place(s, target);
    }
    crate::retaining::lemma_add_retains(s, tile, target, activate);
    lemma_lasts(s, t);
}

/// Taking a window out leaves the outputs alone.
pub proof fn lemma_take_window_level(s: LayoutModel, w: WindowId)
    ensures
        level(s, s.take_window(w)),
{
    let r = s.release();
    assert(level(s, r));
    let a = match s.moving {
        Some(InteractiveMoveState::Starting { window_id }) if window_id == w => r,
        _ => s,
    };
    if let Some((mon, idx)) = a.window_place(w) {
        assert(a.take_shown(mon, idx, w).monitors == a.monitors);
    } else if let Some(i) = find(a.parked, id_having(a.pool, w)) {
        assert(a.take_parked(i, w).monitors == a.monitors);
    } else if let Some(id) = a.pool.first(crate::lookup::having(w)) {
        assert(a.take_hidden(id, w).monitors == a.monitors);
    }
}

/// Taking a window out keeps the layout whole and in order. In a layout in order it is nowhere afterwards.
pub proof fn law_removing_a_window_keeps_whole(s: LayoutModel, w: WindowId)
    requires
        s.whole(),
        s.take_window(w).mended().fits(),
    ensures
        s.take_window(w).mended().whole(),
        s.orderly() ==> s.take_window(w).mended().orderly() && s.take_window(w).mended().census(w)
            == 0,
        s.take_window(w).pool.wf(),
        s.take_window(w).mindful() ==> s.take_window(w).mended().mindful(),
{
    crate::ordering::lemma_take_order(s, w);
    crate::ordering::lemma_orders(s, s.take_window(w));
    lemma_waits_unseen(s);
    crate::tending::law_removing_a_window_keeps_coherence(s, w);
    lemma_take_window_level(s, w);
    lemma_lasts(s, s.take_window(w));
    if s.orderly() {
        let t = s.take_window(w);
        lemma_mended_load(t);
        lemma_mended_leads(t);
        lemma_tally(t.pool.items, w);
        assert(s.census(w) <= 1);
        assert(t.census(w) <= s.census(w));
        assert(tally(t.mended().pool.items, w) == tally(t.pool.items, w));
    }
}

/// Dragging a window keeps the layout whole and in order.
pub proof fn law_dragging_keeps_whole(s: LayoutModel, w: WindowId, m: DragMotion)
    requires
        s.whole(),
        s.update_move(w, m).mended().fits(),
    ensures
        s.update_move(w, m).mended().whole(),
        s.mindful() && (s.moving == Some((InteractiveMoveState::Starting { window_id: w })) ==> (LayoutModel {
            moving: None,
            ..s
        }).tile_of(w) is Some) ==> s.update_move(w, m).mended().mindful(),
        s.orderly() && (s.moving == Some((InteractiveMoveState::Starting { window_id: w })) ==> (LayoutModel {
            moving: None,
            ..s
        }).tile_of(w) is Some) ==> s.update_move(w, m).mended().orderly(),
{
    let home = LayoutModel { moving: None, ..s };
    if s.moving == Some((InteractiveMoveState::Starting { window_id: w })) ==> home.tile_of(w) is Some {
        crate::ordering::lemma_drag_order(s, w, m);
        crate::ordering::lemma_orders(s, s.update_move(w, m));
    }
    lemma_waits_unseen(s);
    crate::upholding::law_dragging_keeps_coherence(s, w, m);
    lemma_take_window_level(LayoutModel { moving: None, ..s }, w);
    if s.mindful() && (s.moving == Some((InteractiveMoveState::Starting { window_id: w }))
        ==> home.tile_of(w) is Some) {
        crate::retaining::lemma_drag_mindful(s, w, m);
    }
    lemma_lasts(s, s.update_move(w, m));
}

/// Letting go of a dragged window keeps the layout whole and in order.
pub proof fn law_dropping_keeps_whole(s: LayoutModel, w: WindowId, p: DropPlace)
    requires
        s.whole(),
        match s.moving {
            Some(InteractiveMoveState::Moving(d)) => d.tile.window.id == w ==> s.let_go(d).can_drop(
                d,
                p,
            ),
            _ => true,
        },
        s.end_move(w, p).mended().fits(),
    ensures
        s.end_move(w, p).mended().whole(),
        s.orderly() ==> s.end_move(w, p).mended().orderly(),
{
    crate::ordering::lemma_end_move_order(s, w, p);
    crate::ordering::lemma_orders(s, s.end_move(w, p));
    broadcast use {lemma_place_resolved_leads, lemma_focus_on_leads, lemma_mint_into_leads};

    let t = s.end_move(w, p);
    lemma_mended_leads(t);
    crate::upholding::law_dropping_keeps_coherence(s, w, p);
    if let Some(InteractiveMoveState::Moving(d)) = s.moving {
        if d.tile.window.id == w {
            let a = s.let_go(d);
            assert(level(s, a));
            assert(level(a, a.drop_at(d, p)));
        }
    }
    assert(level(s, s.release()));
    lemma_lasts(s, t);
}

/// Beginning a swipe leaves the outputs alone.
pub proof fn lemma_begin_swipe_level(
    s: LayoutModel,
    out: OutputId,
    is_touchpad: bool,
    reached: Reached,
    landings: Seq<usize>,
    n: int,
)
    requires
        n <= s.monitors.len(),
    ensures
        level(s, s.begin_swipe(out, is_touchpad, reached, landings, n)),
    decreases n,
{
    if n > 0 {
        lemma_begin_swipe_level(s, out, is_touchpad, reached, landings, n - 1);
        let a = s.begin_swipe(out, is_touchpad, reached, landings, n - 1);
        assert(level(a, a.swipe(n - 1, reached, is_touchpad)));
        assert(level(a, a.end_swipe(n - 1, landings[n - 1] as int)));
    }
}

/// Beginning a swipe keeps the layout whole and in order.
pub proof fn law_swiping_keeps_whole(
    s: LayoutModel,
    out: OutputId,
    is_touchpad: bool,
    reached: Reached,
    landings: Seq<usize>,
    n: int,
)
    requires
        s.whole(),
        n <= s.monitors.len(),
        s.begin_swipe(out, is_touchpad, reached, landings, n).mended().fits(),
    ensures
        s.begin_swipe(out, is_touchpad, reached, landings, n).mended().whole(),
        s.mindful() ==> s.begin_swipe(out, is_touchpad, reached, landings, n).mended().mindful(),
        s.orderly() ==> s.begin_swipe(out, is_touchpad, reached, landings, n).mended().orderly(),
{
    crate::ordering::lemma_begin_swipe_order(s, out, is_touchpad, reached, landings, n);
    crate::ordering::lemma_orders(s, s.begin_swipe(out, is_touchpad, reached, landings, n));
    crate::upholding::law_swiping_keeps_coherence(s, out, is_touchpad, reached, landings, n);
    lemma_begin_swipe_level(s, out, is_touchpad, reached, landings, n);
    crate::retaining::lemma_begin_swipe_retains(s, out, is_touchpad, reached, landings, n);
    lemma_lasts(s, s.begin_swipe(out, is_touchpad, reached, landings, n));
}

/// Letting a swipe go keeps the layout whole and in order.
pub proof fn law_letting_go_keeps_whole(s: LayoutModel, mon: int, idx: int)
    requires
        s.whole(),
        0 <= mon < s.monitors.len(),
        0 <= idx,
        s.end_swipe(mon, idx).mended().fits(),
    ensures
        s.end_swipe(mon, idx).mended().whole(),
        s.mindful() ==> s.end_swipe(mon, idx).mended().mindful(),
        s.orderly() ==> s.end_swipe(mon, idx).mended().orderly(),
{
    crate::ordering::lemma_end_swipe_order(s, mon, idx);
    crate::ordering::lemma_orders(s, s.end_swipe(mon, idx));
    crate::upholding::law_letting_go_keeps_coherence(s, mon, idx);
    crate::retaining::lemma_end_swipe_retains(s, mon, idx);
    lemma_lasts(s, s.end_swipe(mon, idx));
}

/// Looking after the workspaces of monitors leaves the outputs alone.
pub proof fn lemma_attend_level(s: LayoutModel, n: int)
    requires
        n <= s.monitors.len(),
    ensures
        level(s, s.attend(n)),
    decreases n,
{
    if n > 0 {
        lemma_attend_level(s, n - 1);
    }
}

/// Refreshing keeps the layout whole and in order.
pub proof fn law_refreshing_keeps_whole(s: LayoutModel, is_active: bool)
    requires
        s.whole(),
        s.refresh(is_active).mended().fits(),
    ensures
        s.refresh(is_active).mended().whole(),
        s.mindful() ==> s.refresh(is_active).mended().mindful(),
        s.orderly() ==> s.refresh(is_active).mended().orderly(),
{
    crate::ordering::lemma_refresh_order(s, is_active);
    crate::ordering::lemma_orders(s, s.refresh(is_active));
    crate::upholding::law_refreshing_keeps_coherence(s, is_active);
    lemma_attend_level(s, s.monitors.len() as int);
    crate::retaining::lemma_refresh_retains(s, is_active);
    lemma_lasts(s, s.refresh(is_active));
}

/// Ending the animations that arrived leaves the outputs alone.
pub proof fn lemma_end_arrived_level(s: LayoutModel, slid: Seq<bool>, arrived: Seq<bool>, n: int)
    requires
        n <= s.monitors.len(),
    ensures
        level(s, s.end_arrived(slid, arrived, n)),
    decreases n,
{
    broadcast use lemma_clean_up_leads;

    if n > 0 {
        lemma_end_arrived_level(s, slid, arrived, n - 1);
        let a = s.end_arrived(slid, arrived, n - 1);
        let b = if slid[n - 1] {
            a.end_slide(n - 1)
        } else {
            a
        };
        assert(level(a, b));
        let c = b.settle(n - 1);
        assert(level(b, c));
        assert(c.leads_to(c.clean_up(n - 1)));
    }
}

/// A frame keeps the layout whole and in order.
pub proof fn law_advancing_keeps_whole(
    s: LayoutModel,
    scrolled: bool,
    target: Option<DndHoldTarget>,
    now: u64,
    opened: bool,
    slid: Seq<bool>,
    arrived: Seq<bool>,
)
    requires
        s.whole(),
        arrived.len() == s.monitors.len(),
        s.advance(scrolled, target, now, opened, slid, arrived).mended().fits(),
    ensures
        s.advance(scrolled, target, now, opened, slid, arrived).mended().whole(),
        s.mindful() ==> s.advance(scrolled, target, now, opened, slid, arrived).mended().mindful(),
        s.orderly() ==> s.advance(scrolled, target, now, opened, slid, arrived).mended().orderly(),
{
    crate::ordering::lemma_advance_order(s, scrolled, target, now, opened, slid, arrived);
    broadcast use lemma_focus_on_leads;

    let t = s.advance(scrolled, target, now, opened, slid, arrived);
    crate::upholding::law_advancing_keeps_coherence(s, scrolled, target, now, opened, slid, arrived);
    let a = s.advance_hold(scrolled, target, now);
    assert(level(s, a)) by {
        if let Some(out) = s.drag_output() {
            lemma_find_from(s.monitors, on_output(out), 0);
        }
    }
    let b = if opened {
        a.settle_overview()
    } else {
        a
    };
    lemma_end_arrived_level(b, slid, arrived, arrived.len() as int);
    crate::retaining::lemma_advance_retains(s, scrolled, target, now, opened, slid, arrived);
    lemma_lasts(s, t);
}

/// Going to a workspace from the overview keeps the layout whole and in order.
pub proof fn law_overlooking_keeps_whole(s: LayoutModel, idx: int)
    requires
        s.whole(),
    ensures
        ({
            let t = (if s.monitors.len() > 0 {
                s.focus_on(s.focused, idx)
            } else {
                s
            }).set_overview(!s.overview_open);
            t.mended().fits() ==> t.mended().whole() && (s.orderly() ==> t.mended().orderly()) && (
            s.mindful() ==> t.mended().mindful())
        }),
{
    let a = if s.monitors.len() > 0 {
        s.focus_on(s.focused, idx)
    } else {
        s
    };
    let t = a.set_overview(!s.overview_open);
    if s.monitors.len() > 0 {
        crate::ordering::lemma_focus_order(s, s.focused, idx);
        crate::ordering::lemma_orders(s, a);
        crate::retaining::lemma_focus_retains(s, s.focused, idx);
    }
    crate::ordering::lemma_overview_order(
        a,
        !s.overview_open,
        crate::layout::OverviewProgress::Animation,
    );
    if s.monitors.len() > 0 {
        lemma_focus_on_leads(s, s.focused, idx);
        crate::placing::lemma_focus_on(s, s.focused, idx);
    }
    crate::upholding::law_pointing_keeps_coherence(
        a,
        WindowId(0),
        Output { id: OutputId(0), connector: OutputId(0) },
        !s.overview_open,
    );
    if t.mended().fits() {
        lemma_lasts(s, t);
    }
}

/// Taking a window out, with the bookmarks to it, keeps the layout whole and in order.
pub proof fn law_forgetting_a_window_keeps_whole(s: LayoutModel, w: WindowId)
    requires
        s.whole(),
        (LayoutModel { bookmarks: s.bookmarks.prune(w), ..s }).take_window(w).mended().fits(),
    ensures
        (LayoutModel { bookmarks: s.bookmarks.prune(w), ..s }).take_window(w).mended().whole(),
        s.orderly() ==> ({
            let t = (LayoutModel { bookmarks: s.bookmarks.prune(w), ..s }).take_window(w).mended();
            t.orderly() && t.census(w) == 0
        }),
        s.mindful() ==> (LayoutModel {
            bookmarks: s.bookmarks.prune(w),
            ..s
        }).take_window(w).mended().mindful(),
{
    if s.orderly() {
        crate::census::lemma_order(s, LayoutModel { bookmarks: s.bookmarks.prune(w), ..s });
    }
    let a = LayoutModel { bookmarks: s.bookmarks.prune(w), ..s };
    lemma_same_layout(s, a);
    law_removing_a_window_keeps_whole(a, w);
    if s.mindful() {
        crate::retaining::lemma_forget_mindful(s, w);
    }
}

/// A layout that shows and holds the same is whole if the other one is.
pub proof fn lemma_same_layout(s: LayoutModel, t: LayoutModel)
    requires
        s.whole(),
        t.pool == s.pool,
        t.acts == s.acts,
        t.parked == s.parked,
        level(s, t),
        forall|i: int|
            0 <= i < s.monitors.len() ==> (#[trigger] s.monitors[i]).empty_workspace_above_first
                == t.monitors[i].empty_workspace_above_first,
        t.pointed(),
    ensures
        t.whole(),
{
    assert forall|o: OutputId| #[trigger] t.monitor_pos(o) == s.monitor_pos(o) by {
        crate::wholeness::lemma_same_monitor(s, t, o);
    }
    assert forall|a: ActivityId, o: OutputId| #[trigger] t.view_of(a, o) is Some implies t.monitor_pos(
        o,
    ) is Some by {
        assert(s.view_of(a, o) is Some);
        assert(s.monitor_pos(o) is Some);
    }
    assert forall|c: ActivityId, o1: OutputId, o2: OutputId, x: WorkspaceId|
        o1 != o2 && #[trigger] t.shows_on(c, o1, x) implies !(#[trigger] t.shows_on(c, o2, x)) by {
        assert(s.shows_on(c, o1, x));
        assert(!s.shows_on(c, o2, x));
    }
    assert forall|i: int, m: int|
        0 <= i < t.acts.list.len() && 0 <= m < t.monitors.len() implies t.view_of(
        (#[trigger] t.acts.list[i]).id,
        (#[trigger] t.monitors[m]).output.id,
    ) is Some && t.ends_empty(t.acts.list[i].id, m) by {
        assert(s.monitors[m].output == t.monitors[m].output);
        assert(s.view_of(s.acts.list[i].id, s.monitors[m].output.id) is Some);
        assert(s.ends_empty(s.acts.list[i].id, m));
    }
    assert forall|i: int, m: int|
        0 <= i < t.acts.list.len() && 0 <= m
            < t.monitors.len() implies #[trigger] t.ends_empty(t.acts.list[i].id, m) by {
        assert(s.monitors[m].output == t.monitors[m].output);
        assert(s.ends_empty(s.acts.list[i].id, m));
    }
    assert(t.outputs_apart()) by {
        assert forall|i: int| 0 <= i < t.monitors.len() implies (
        #[trigger] t.monitors[i]).output.id.0 != 0 by {
            assert(s.monitors[i].output == t.monitors[i].output);
        }
        assert forall|i: int, j: int| 0 <= i < j < t.monitors.len() implies apart(
            (#[trigger] t.monitors[i]).output,
            (#[trigger] t.monitors[j]).output,
        ) by {
            assert(s.monitors[i].output == t.monitors[i].output);
            assert(s.monitors[j].output == t.monitors[j].output);
            assert(apart(s.monitors[i].output, s.monitors[j].output));
        }
    }
    if t.monitors.len() > 0 {
        assert forall|x: WorkspaceId, a: ActivityId| #[trigger] t.pool.member(x, a) implies exists|
            b: OutputId,
        | t.shows_on(a, b, x) by {
            let b = choose|b: OutputId| s.shows_on(a, b, x);
            assert(t.shows_on(a, b, x));
        }
    }
}

} // verus!
