//! Reordering the workspaces of a monitor changes their order and nothing else.

use vstd::prelude::*;

use crate::coherence::{lemma_view_is_ok, lemma_with_view_coherent, view_ok};
use crate::cores::{
    calm, kept_view, lemma_calm_still, lemma_calm_trans, lemma_clean_up_calm,
    lemma_mint_into_calm, same_work,
};
use crate::keeping::lemma_mint_into;
use crate::keeping_outputs::lemma_settle;
use crate::keeping_views::lemma_clean_up;
use crate::layout::LayoutModel;
use crate::search::{equal_to, lemma_find_from};
use crate::transfer::lemma_view_after_set;
use crate::view::ViewModel;
use crate::workspace::Output;

verus! {

/// Bookends and sweeping after a view was rearranged are calm.
pub proof fn lemma_rearrange(s: LayoutModel, mon: int, v: ViewModel, low: int, high: int, o: Output)
    requires
        s.coherent(),
        0 <= mon < s.monitors.len(),
        s.active_view(s.monitors[mon].output.id) is Some,
        view_ok(s.pool, s.acts.active, v),
        s.rearrange(mon, v, low, high).fits(),
    ensures
        s.rearrange(mon, v, low, high).coherent(),
        calm(
            s.with_view(s.acts.active, s.monitors[mon].output.id, v),
            s.rearrange(mon, v, low, high),
            o,
        ),
{
    let m = s.monitors[mon];
    let out = m.output.id;
    let act = s.acts.active;
    let s1 = s.with_view(act, out, v);
    lemma_with_view_coherent(s, act, out, v);
    lemma_view_after_set(s.acts, act, out, v);
    let n = v.ids.len() as int;
    let down = high == n - 1;
    let s2 = if down {
        s1.add_workspace_bottom(mon)
    } else {
        s1
    };
    let up = m.empty_workspace_above_first && low == 0;
    let s3 = if up {
        s2.add_workspace_top(mon)
    } else {
        s2
    };
    let s4 = s3.settle(mon);
    let t = s4.clean_up(mon);
    crate::bookends::lemma_mint_into_leads(s1, mon, act, n);
    crate::bookends::lemma_mint_into_leads(s2, mon, act, 0);
    crate::reclaim::lemma_clean_up_leads(s4, mon);
    lemma_calm_still(s1, s1, o);
    assert(s1.active_view(out) == Some(v));
    if down {
        assert(s2 == s1.mint_into(mon, act, n));
        lemma_mint_into(s1, mon, act, n);
        lemma_mint_into_calm(s1, mon, act, n, o);
    }
    assert(calm(s1, s2, o));
    if up {
        lemma_mint_into(s2, mon, act, 0);
        lemma_mint_into_calm(s2, mon, act, 0, o);
        lemma_calm_trans(s1, s2, s3, o);
    }
    lemma_settle(s3, mon);
    lemma_calm_still(s3, s4, o);
    lemma_calm_trans(s1, s3, s4, o);
    lemma_clean_up(s4, mon);
    lemma_clean_up_calm(s4, mon, o);
    lemma_calm_trans(s1, s4, t, o);
}

/// Moving a workspace down exchanges it with the one below. Nothing else changes but empty
/// workspaces.
pub proof fn law_sinking_swaps(s: LayoutModel, mon: int, o: Output)
    requires
        s.coherent(),
        0 <= mon < s.monitors.len(),
        match s.active_view(s.monitors[mon].output.id) {
            Some(v) => v.active_position() + 1 < v.ids.len(),
            None => false,
        },
        s.sink(mon).fits(),
    ensures
        ({
            let out = s.monitors[mon].output.id;
            let v = s.active_view(out).unwrap();
            let a = v.active_position();
            &&& s.sink(mon).coherent()
            &&& same_work(s.pool, s.sink(mon).pool, o)
            &&& kept_view(
                s.pool,
                Some(v.swap(a, a + 1)),
                s.sink(mon).view_of(s.acts.active, out),
            )
        }),
{
    let out = s.monitors[mon].output.id;
    let act = s.acts.active;
    let v = s.active_view(out).unwrap();
    let a = v.active_position();
    lemma_view_is_ok(s, act, out);
    lemma_find_from(v.ids, equal_to(v.active), 0);
    let w = v.swap(a, a + 1);
    crate::view::lemma_swap_wf(v, a, a + 1);
    lemma_rearrange(s, mon, w, a, a + 1, o);
    lemma_view_after_set(s.acts, act, out, w);
    let s1 = s.with_view(act, out, w);
    assert(kept_view(s1.pool, s1.view_of(act, out), s.sink(mon).view_of(act, out)));
}

/// Moving a workspace up exchanges it with the one above. Nothing else changes but empty
/// workspaces.
pub proof fn law_raising_swaps(s: LayoutModel, mon: int, o: Output)
    requires
        s.coherent(),
        0 <= mon < s.monitors.len(),
        match s.active_view(s.monitors[mon].output.id) {
            Some(v) => 0 < v.active_position() < v.ids.len(),
            None => false,
        },
        s.raise(mon).fits(),
    ensures
        ({
            let out = s.monitors[mon].output.id;
            let v = s.active_view(out).unwrap();
            let a = v.active_position();
            &&& s.raise(mon).coherent()
            &&& same_work(s.pool, s.raise(mon).pool, o)
            &&& kept_view(
                s.pool,
                Some(v.swap(a, a - 1)),
                s.raise(mon).view_of(s.acts.active, out),
            )
        }),
{
    let out = s.monitors[mon].output.id;
    let act = s.acts.active;
    let v = s.active_view(out).unwrap();
    let a = v.active_position();
    lemma_view_is_ok(s, act, out);
    lemma_find_from(v.ids, equal_to(v.active), 0);
    let w = v.swap(a, a - 1);
    crate::view::lemma_swap_wf(v, a, a - 1);
    lemma_rearrange(s, mon, w, a - 1, a, o);
    lemma_view_after_set(s.acts, act, out, w);
    let s1 = s.with_view(act, out, w);
    assert(kept_view(s1.pool, s1.view_of(act, out), s.raise(mon).view_of(act, out)));
}

/// Moving a workspace to another place of its monitor, or to the end, moves it there. Nothing else
/// changes but empty workspaces.
pub proof fn law_relocating_moves(s: LayoutModel, mon: int, from: int, to: int, o: Output)
    requires
        s.coherent(),
        0 <= mon < s.monitors.len(),
        match s.active_view(s.monitors[mon].output.id) {
            Some(v) => 0 <= from < v.ids.len() && 0 <= to,
            None => false,
        },
        s.relocate(mon, from, to).fits(),
    ensures
        ({
            let out = s.monitors[mon].output.id;
            let v = s.active_view(out).unwrap();
            let at = if to < v.ids.len() {
                to
            } else {
                v.ids.len() - 1
            };
            &&& s.relocate(mon, from, to).coherent()
            &&& same_work(s.pool, s.relocate(mon, from, to).pool, o)
            &&& kept_view(
                s.pool,
                Some(v.move_within(from, at)),
                s.relocate(mon, from, to).view_of(s.acts.active, out),
            )
        }),
{
    let out = s.monitors[mon].output.id;
    let act = s.acts.active;
    let v = s.active_view(out).unwrap();
    let at = if to < v.ids.len() {
        to
    } else {
        v.ids.len() - 1
    };
    let t = s.relocate(mon, from, to);
    lemma_view_is_ok(s, act, out);
    let w = v.move_within(from, at);
    crate::view::lemma_move_wf(v, from, at);
    if from == at {
        assert(w.ids =~= v.ids);
        lemma_calm_still(s, s, o);
    } else {
        let (low, high) = if from < at {
            (from, at)
        } else {
            (at, from)
        };
        lemma_rearrange(s, mon, w, low, high, o);
        lemma_view_after_set(s.acts, act, out, w);
        let s1 = s.with_view(act, out, w);
        assert(kept_view(s1.pool, s1.view_of(act, out), t.view_of(act, out)));
    }
}

} // verus!
