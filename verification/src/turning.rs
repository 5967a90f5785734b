//! Turning to another workspace shows the one that was asked for, and turning back the one before.

use vstd::prelude::*;

use crate::coherence::lemma_view_is_ok;
use crate::ids::{ActivityId, OutputId, WorkspaceId};
use crate::layout::LayoutModel;
use crate::persisting::lemma_focus_whole;
use crate::search::{equal_to, lemma_find_from};
use crate::transfer::lemma_view_after_set;
use crate::view::ViewModel;

verus! {

/// `t` is `s` but for the strip that the active activity has on the focused monitor, where it is the
/// same strip with workspace `x` active, and the one that was active before remembered if another one
/// is now.
pub open spec fn turned(s: LayoutModel, t: LayoutModel, x: WorkspaceId) -> bool {
    let act = s.acts.active;
    let out = s.monitors[s.focused].output.id;
    let v = s.view_of(act, out).unwrap();
    &&& t.view_of(act, out) == Some(
        ViewModel {
            ids: v.ids,
            active: x,
            previous: if x == v.active {
                v.previous
            } else {
                Some(v.active)
            },
        },
    )
    &&& forall|a: ActivityId, o: OutputId|
        a != act || o != out ==> #[trigger] t.view_of(a, o) == s.view_of(a, o)
    &&& t.pool == s.pool
    &&& t.parked == s.parked
    &&& t.acts.active == act
    &&& t.focused == s.focused
    &&& t.moving == s.moving
    &&& t.monitors.len() == s.monitors.len()
    &&& forall|i: int|
        0 <= i < s.monitors.len() ==> (#[trigger] t.monitors[i]).output == s.monitors[i].output
}

/// Giving the focus to a place of the focused monitor turns to the workspace there.
pub proof fn lemma_turned(s: LayoutModel, idx: int)
    requires
        s.whole(),
        s.monitors.len() > 0,
        0 <= idx < s.view_len(s.focused),
    ensures
        ({
            let t = s.focus_on(s.focused, idx);
            let v = s.active_view(s.monitors[s.focused].output.id).unwrap();
            &&& turned(s, t, v.ids[idx])
            &&& t.mended() == t
            &&& t.whole()
        }),
{
    let act = s.acts.active;
    let out = s.monitors[s.focused].output.id;
    let v = s.active_view(out).unwrap();
    lemma_focus_whole(s, s.focused, idx);
    lemma_view_after_set(s.acts, act, out, v.activate(idx));
    crate::windows::lemma_focus_on_leads(s, s.focused, idx);
}

/// The place of the active workspace is where the strip has it.
pub proof fn lemma_active_at(s: LayoutModel, at: int)
    requires
        s.whole(),
        s.monitors.len() > 0,
        0 <= at < s.view_len(s.focused),
        ({
            let v = s.active_view(s.monitors[s.focused].output.id).unwrap();
            v.ids[at] == v.active
        }),
    ensures
        s.active_place(s.focused).1 == at,
{
    let out = s.monitors[s.focused].output.id;
    let v = s.active_view(out).unwrap();
    lemma_view_is_ok(s, s.acts.active, out);
    lemma_find_from(v.ids, equal_to(v.active), 0);
}

/// Switching to a place turns to the workspace there, and to the last one if the strip is shorter.
pub proof fn law_switching_turns_to_the_place(s: LayoutModel, idx: int)
    requires
        s.whole(),
        s.monitors.len() > 0,
        0 <= idx,
    ensures
        ({
            let v = s.view_of(s.acts.active, s.monitors[s.focused].output.id).unwrap();
            let at = if idx < v.ids.len() {
                idx
            } else {
                v.ids.len() - 1
            };
            &&& v.ids.len() > 0
            &&& turned(s, s.switch_to(idx).mended(), v.ids[at])
        }),
{
    let v = lemma_strip(s);
    let n = v.ids.len() as int;
    lemma_turned(
        s,
        if idx < n {
            idx
        } else {
            n - 1
        },
    );
}

/// The strip of the focused monitor has a workspace.
pub proof fn lemma_strip(s: LayoutModel) -> (v: ViewModel)
    requires
        s.whole(),
        s.monitors.len() > 0,
    ensures
        s.view_of(s.acts.active, s.monitors[s.focused].output.id) == Some(v),
        v.ids.len() > 0,
        v.ids.no_duplicates(),
        v.ids.contains(v.active),
{
    let act = s.acts.active;
    let out = s.monitors[s.focused].output.id;
    crate::coherence::lemma_act(s.acts, act);
    let i = s.acts.pos(act).unwrap();
    assert(s.view_of(s.acts.list[i].id, s.monitors[s.focused].output.id) is Some);
    lemma_view_is_ok(s, act, out);
    s.view_of(act, out).unwrap()
}

/// Switching up or down turns to the workspace next to the active one at `at`. At the end of the
/// strip there is none, and the active one stays.
pub proof fn law_switching_by_one_turns_to_the_neighbour(s: LayoutModel, at: int)
    requires
        s.whole(),
        s.monitors.len() > 0,
        match s.view_of(s.acts.active, s.monitors[s.focused].output.id) {
            Some(v) => 0 <= at < v.ids.len() && v.ids[at] == v.active,
            None => false,
        },
    ensures
        ({
            let v = s.view_of(s.acts.active, s.monitors[s.focused].output.id).unwrap();
            &&& turned(
                s,
                s.switch_up().mended(),
                v.ids[if at > 0 {
                    at - 1
                } else {
                    at
                }],
            )
            &&& turned(
                s,
                s.switch_down().mended(),
                v.ids[if at + 1 < v.ids.len() {
                    at + 1
                } else {
                    at
                }],
            )
        }),
{
    lemma_active_at(s, at);
    law_switching_turns_to_the_place(
        s,
        if at > 0 {
            at - 1
        } else {
            0
        },
    );
    law_switching_turns_to_the_place(s, at + 1);
}

/// Switching back turns to the workspace that was active before, where the strip still has it, and
/// does nothing otherwise. So does switching to the active place with the back-and-forth; to any
/// other place it switches like the plain one.
pub proof fn law_switching_back_turns_to_the_one_before(s: LayoutModel, idx: int)
    requires
        s.whole(),
        s.monitors.len() > 0,
        0 <= idx,
    ensures
        ({
            let v = s.view_of(s.acts.active, s.monitors[s.focused].output.id).unwrap();
            let back = s.switch_back().mended();
            let at = if idx < v.ids.len() {
                idx
            } else {
                v.ids.len() - 1
            };
            &&& match v.previous {
                Some(p) if v.ids.contains(p) => turned(s, back, p),
                _ => back == s,
            }
            &&& s.switch_to_or_back(idx).mended() == if v.ids[at] == v.active {
                back
            } else {
                s.switch_to(idx).mended()
            }
        }),
{
    let v = lemma_strip(s);
    let n = v.ids.len() as int;
    let at = if idx < n {
        idx
    } else {
        n - 1
    };
    crate::wholeness::law_mending_is_idle(s);
    if let Some(p) = v.previous {
        lemma_find_from(v.ids, equal_to(p), 0);
        if let Some(i) = v.position_of(p) {
            assert(v.ids[i] == p);
            assert(v.ids.contains(p));
            lemma_turned(s, i);
        } else if v.ids.contains(p) {
            let k = choose|k: int| 0 <= k < n && v.ids[k] == p;
            assert(equal_to(p)(v.ids[k]));
        }
    }
    let k = choose|k: int| 0 <= k < n && v.ids[k] == v.active;
    lemma_active_at(s, k);
    if v.ids[at] == v.active {
        assert(at == k);
    }
}

/// Switching to another workspace and back again shows the one that was active, and remembers the
/// other one, so that switching back once more shows that.
pub proof fn law_switching_there_and_back(s: LayoutModel, idx: int)
    requires
        s.whole(),
        s.monitors.len() > 0,
        match s.view_of(s.acts.active, s.monitors[s.focused].output.id) {
            Some(v) => 0 <= idx < v.ids.len() && v.ids[idx] != v.active,
            None => false,
        },
    ensures
        ({
            let act = s.acts.active;
            let out = s.monitors[s.focused].output.id;
            let v = s.view_of(act, out).unwrap();
            let there = s.switch_to(idx).mended();
            let back = there.switch_back().mended();
            &&& there.view_of(act, out).unwrap().active == v.ids[idx]
            &&& back.view_of(act, out).unwrap().active == v.active
            &&& back.switch_back().mended().view_of(act, out).unwrap().active == v.ids[idx]
        }),
{
    let v = lemma_strip(s);
    law_switching_turns_to_the_place(s, idx);
    lemma_turned(s, idx);
    let there = s.switch_to(idx).mended();
    law_switching_back_turns_to_the_one_before(there, 0);
    let u = lemma_strip(there);
    let back = there.switch_back().mended();
    let i = u.position_of(v.active);
    lemma_find_from(u.ids, equal_to(v.active), 0);
    if i is None {
        let k = choose|k: int| 0 <= k < u.ids.len() && u.ids[k] == v.active;
        assert(equal_to(v.active)(u.ids[k]));
    }
    lemma_turned(there, i.unwrap());
    assert(v.ids.contains(v.ids[idx]));
    law_switching_back_turns_to_the_one_before(back, 0);
}

/// A swipe over the workspaces of monitor `m` that ends over place `landing` turns that monitor to the
/// workspace there. Nothing else changes.
pub proof fn law_swipe_ends_on_its_landing(s: LayoutModel, m: int, landing: int)
    requires
        s.whole(),
        0 <= m < s.monitors.len(),
        s.monitors[m].workspace_switch is Some,
        s.monitors[m].workspace_switch.unwrap() is Gesture,
        0 <= landing < s.view_len(m),
        landing <= i64::MAX,
    ensures
        ({
            let t = s.end_swipe(m, landing).mended();
            let act = s.acts.active;
            let out = s.monitors[m].output.id;
            let v = s.view_of(act, out).unwrap();
            &&& match t.view_of(act, out) {
                Some(u) => u.ids == v.ids && u.active == v.ids[landing] && u.previous == if v.ids[landing]
                    == v.active {
                    v.previous
                } else {
                    Some(v.active)
                },
                None => false,
            }
            &&& forall|a: ActivityId, o: OutputId|
                a != act || o != out ==> #[trigger] t.view_of(a, o) == s.view_of(a, o)
            &&& t.pool == s.pool
            &&& t.parked == s.parked
            &&& t.acts.active == act
            &&& t.focused == s.focused
        }),
{
    let t = s.end_swipe(m, landing);
    let act = s.acts.active;
    let out = s.monitors[m].output.id;
    let v = s.active_view(out).unwrap();
    let w = v.activate(landing);
    lemma_view_after_set(s.acts, act, out, w);
    assert(t.view_of(act, out) == Some(w));
    assert forall|a: ActivityId, o: OutputId| a != act || o != out implies #[trigger] t.view_of(a, o)
        == s.view_of(a, o) by {
        crate::transfer::lemma_view_after_set_other(s.acts, act, out, w, a, o);
    }
    crate::upholding::law_letting_go_keeps_coherence(s, m, landing);
    crate::reclaim::lemma_with_view_leads(s, act, out, w);
    crate::coherence::lemma_same_ids(s.acts, t.acts);
    crate::persisting::lemma_same_strips(s, t);
    crate::wholeness::law_mending_is_idle(t);
}

/// Focusing an output that is connected makes it the focused one; another one changes nothing.
/// Everything else stays.
pub proof fn law_focused_output_is_the_one_asked_for(s: LayoutModel, out: OutputId)
    requires
        s.whole(),
    ensures
        ({
            let t = s.focus_output(out);
            &&& t == (LayoutModel { focused: t.focused, ..s })
            &&& if exists|i: int|
                0 <= i < s.monitors.len() && (#[trigger] s.monitors[i]).output.id == out {
                0 <= t.focused < t.monitors.len() && t.monitors[t.focused].output.id == out
            } else {
                t == s
            }
        }),
{
    lemma_find_from(s.monitors, crate::layout::on_output(out), 0);
    if exists|i: int| 0 <= i < s.monitors.len() && (#[trigger] s.monitors[i]).output.id == out {
        let i = choose|i: int| 0 <= i < s.monitors.len() && (#[trigger] s.monitors[i]).output.id == out;
        assert(crate::layout::on_output(out)(s.monitors[i]));
    }
}

/// Toggling the overview towards a place opens it where it was closed, and closes it where it was
/// open, on every monitor, and turns to the workspace at that place.
pub proof fn law_overview_toggles_to_the_place(s: LayoutModel, idx: int)
    requires
        s.whole(),
        s.monitors.len() > 0,
        0 <= idx < s.view_len(s.focused),
    ensures
        ({
            let t = s.focus_on(s.focused, idx).set_overview(!s.overview_open).mended();
            let v = s.view_of(s.acts.active, s.monitors[s.focused].output.id).unwrap();
            &&& turned(s, t, v.ids[idx])
            &&& t.overview_open == !s.overview_open
            &&& forall|i: int|
                0 <= i < t.monitors.len() ==> (#[trigger] t.monitors[i]).overview_open
                    == !s.overview_open
        }),
{
    lemma_turned(s, idx);
    let a = s.focus_on(s.focused, idx);
    let t = a.set_overview(!s.overview_open);
    assert(crate::coherence::alike(a.pool, t.pool));
    crate::upholding::lemma_frame(a, t);
    crate::persisting::lemma_same_strips(a, t);
    crate::wholeness::law_mending_is_idle(t);
    assert forall|b: ActivityId, o: OutputId| #[trigger] t.view_of(b, o) == a.view_of(b, o) by {}
}

} // verus!
