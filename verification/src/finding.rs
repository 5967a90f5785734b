//! What is looked up is what was asked for, and is found if it is there.

use vstd::prelude::*;

use crate::coherence::lemma_get;
use crate::ids::{ActivityId, OutputId, WindowId, WorkspaceId};
use crate::layout::{on_output, LayoutModel};
use crate::lookup::{
    by_name, by_name_in, having, id_by_name, titled, ActivityReferenceArg, WorkspaceReference,
};
use crate::search::{equal_to, find, lemma_find_from};
use crate::tallying::{count_on, lemma_counted, lemma_single};
use crate::text::same_name;

verus! {

/// Whether workspace `x` is there and has the name, in any case.
pub open spec fn bears(s: LayoutModel, x: WorkspaceId, name: Seq<char>) -> bool {
    match s.pool.get(x) {
        Some(w) => match w.name {
            Some(n) => same_name(n, name),
            None => false,
        },
        None => false,
    }
}

/// An output that is connected is found where it is, and no other is.
pub proof fn law_output_is_found(s: LayoutModel, m: int, out: OutputId)
    requires
        s.whole(),
    ensures
        s.monitor_pos(out) == Some(m) <==> 0 <= m < s.monitors.len() && s.monitors[m].output.id == out,
        s.monitor_pos(out) is None <==> forall|i: int|
            0 <= i < s.monitors.len() ==> (#[trigger] s.monitors[i]).output.id != out,
{
    let p = on_output(out);
    lemma_find_from(s.monitors, p, 0);
    if 0 <= m < s.monitors.len() && s.monitors[m].output.id == out {
        assert(p(s.monitors[m]));
        let k = s.monitor_pos(out).unwrap();
        assert(p(s.monitors[k]));
        if k < m {
            assert(crate::cores::apart(s.monitors[k].output, s.monitors[m].output));
        } else if m < k {
            assert(crate::cores::apart(s.monitors[m].output, s.monitors[k].output));
        }
    }
    if let Some(k) = s.monitor_pos(out) {
        assert(p(s.monitors[k]));
    } else {
        assert forall|i: int| 0 <= i < s.monitors.len() implies (
        #[trigger] s.monitors[i]).output.id != out by {
            assert(!p(s.monitors[i]));
        }
    }
}

/// The monitor that is found for a workspace is the one on whose output the active activity shows
/// it. None is found if the active activity does not show it.
pub proof fn law_workspace_is_found_on_its_monitor(s: LayoutModel, x: WorkspaceId, m: int)
    requires
        s.whole(),
    ensures
        s.monitor_showing(x) == Some(m) <==> 0 <= m < s.monitors.len() && s.shows_on(
            s.acts.active,
            s.monitors[m].output.id,
            x,
        ),
        s.monitor_showing(x) is None <==> forall|o: OutputId| !(#[trigger] s.shows_on(
            s.acts.active,
            o,
            x,
        )),
{
    let act = s.acts.active;
    let p = s.showing(x);
    lemma_find_from(s.monitors, p, 0);
    assert forall|i: int| 0 <= i < s.monitors.len() implies p(#[trigger] s.monitors[i])
        == s.shows_on(act, s.monitors[i].output.id, x) by {
        if let Some(v) = s.view_of(act, s.monitors[i].output.id) {
            lemma_find_from(v.ids, equal_to(x), 0);
            if v.ids.contains(x) {
                let k = choose|k: int| 0 <= k < v.ids.len() && v.ids[k] == x;
                assert(equal_to(x)(v.ids[k]));
            }
            if let Some(k) = v.position_of(x) {
                assert(v.ids[k] == x);
            }
        }
    }
    if 0 <= m < s.monitors.len() && s.shows_on(act, s.monitors[m].output.id, x) {
        let k = s.monitor_showing(x).unwrap();
        if s.monitors[k].output.id != s.monitors[m].output.id {
            assert(!s.shows_on(act, s.monitors[m].output.id, x));
        }
        law_output_is_found(s, k, s.monitors[m].output.id);
        law_output_is_found(s, m, s.monitors[m].output.id);
    }
    if s.monitor_showing(x) is None {
        assert forall|o: OutputId| !(#[trigger] s.shows_on(act, o, x)) by {
            if s.shows_on(act, o, x) {
                assert(s.monitor_pos(o) is Some);
                law_output_is_found(s, s.monitor_pos(o).unwrap(), o);
            }
        }
    }
}

/// The place that is found for a workspace is its place in the strip that shows it, or among those
/// that wait if none does.
pub proof fn law_place_is_found(s: LayoutModel, x: WorkspaceId, o: OutputId, i: int)
    requires
        s.whole(),
    ensures
        s.shows_on(s.acts.active, o, x) ==> {
            s.place_of(x) == Some(i) <==> 0 <= i < s.view_of(s.acts.active, o).unwrap().ids.len()
                && s.view_of(s.acts.active, o).unwrap().ids[i] == x
        },
        (forall|p: OutputId| !(#[trigger] s.shows_on(s.acts.active, p, x))) ==> {
            s.place_of(x) == Some(i) <==> 0 <= i < s.parked.len() && s.parked[i] == x
        },
{
    let act = s.acts.active;
    if s.shows_on(act, o, x) {
        assert(s.monitor_pos(o) is Some);
        let m = s.monitor_pos(o).unwrap();
        law_output_is_found(s, m, o);
        law_workspace_is_found_on_its_monitor(s, x, m);
        let v = s.view_of(act, o).unwrap();
        crate::coherence::lemma_view_is_ok(s, act, o);
        lemma_find_from(v.ids, equal_to(x), 0);
        let k = choose|k: int| 0 <= k < v.ids.len() && v.ids[k] == x;
        assert(equal_to(x)(v.ids[k]));
    }
    if forall|p: OutputId| !(#[trigger] s.shows_on(act, p, x)) {
        law_workspace_is_found_on_its_monitor(s, x, 0);
        lemma_find_from(s.parked, equal_to(x), 0);
        if 0 <= i < s.parked.len() && s.parked[i] == x {
            assert(equal_to(x)(s.parked[i]));
        }
    }
}

/// A name finds a workspace that has it and that the active activity shows, or one that waits if
/// there is none, and its place there. It finds one if there is one.
pub proof fn law_name_finds_its_workspace(s: LayoutModel, name: Seq<char>)
    requires
        s.whole(),
    ensures
        match s.named_workspace(name) {
            Some((i, x)) => {
                &&& bears(s, x, name)
                &&& (exists|o: OutputId|
                    {
                        &&& #[trigger] s.shows_on(s.acts.active, o, x)
                        &&& 0 <= i < s.view_of(s.acts.active, o).unwrap().ids.len()
                        &&& s.view_of(s.acts.active, o).unwrap().ids[i] == x
                    }) || (0 <= i < s.parked.len() && s.parked[i] == x && forall|
                    o: OutputId,
                    y: WorkspaceId,
                | #[trigger] s.shows_on(s.acts.active, o, y) ==> !bears(s, y, name))
            },
            None => {
                &&& forall|o: OutputId, y: WorkspaceId| #[trigger]
                    s.shows_on(s.acts.active, o, y) ==> !bears(s, y, name)
                &&& forall|i: int|
                    0 <= i < s.parked.len() ==> !bears(s, #[trigger] s.parked[i], name)
            },
        },
{
    let act = s.acts.active;
    let p = id_by_name(s.pool, name);
    let f = s.showing_name(name);
    assert forall|y: WorkspaceId| #[trigger] p(y) == bears(s, y, name) by {}
    lemma_find_from(s.monitors, f, 0);
    match find(s.monitors, f) {
        Some(m) => {
            let o = s.monitors[m].output.id;
            assert(f(s.monitors[m]));
            let ids = s.active_view(o).unwrap().ids;
            lemma_find_from(ids, p, 0);
            let i = find(ids, p).unwrap();
            assert(p(ids[i]));
            assert(ids.contains(ids[i]));
            assert(s.shows_on(act, o, ids[i]));
        },
        None => {
            assert forall|o: OutputId, y: WorkspaceId| #[trigger] s.shows_on(act, o, y) implies !bears(
                s,
                y,
                name,
            ) by {
                if p(y) {
                    assert(s.monitor_pos(o) is Some);
                    let m = s.monitor_pos(o).unwrap();
                    law_output_is_found(s, m, o);
                    let ids = s.active_view(o).unwrap().ids;
                    lemma_find_from(ids, p, 0);
                    let k = choose|k: int| 0 <= k < ids.len() && ids[k] == y;
                    assert(p(ids[k]));
                    assert(f(s.monitors[m]));
                }
            }
            lemma_find_from(s.parked, p, 0);
            if let Some(i) = find(s.parked, p) {
                assert(p(s.parked[i]));
            } else {
                assert forall|i: int| 0 <= i < s.parked.len() implies !bears(
                    s,
                    #[trigger] s.parked[i],
                    name,
                ) by {
                    assert(!p(s.parked[i]));
                }
            }
        },
    }
}

/// A reference finds the workspace with that number, the one at that place of the focused strip
/// counted from one, or one with that name. No reference finds the active one.
pub proof fn law_reference_finds_its_workspace(s: LayoutModel, r: Option<WorkspaceReference>)
    requires
        s.whole(),
        s.monitors.len() > 0,
    ensures
        ({
            let v = s.view_of(s.acts.active, s.monitors[s.focused].output.id).unwrap();
            match r {
                Some(WorkspaceReference::Id(raw)) => s.referred_or_active(r) == if s.pool.has(
                    WorkspaceId(raw),
                ) {
                    Some(WorkspaceId(raw))
                } else {
                    None
                },
                Some(WorkspaceReference::Index(n)) => n > 0 ==> s.referred_or_active(r) == if n
                    <= v.ids.len() {
                    Some(v.ids[n - 1])
                } else {
                    None
                },
                Some(WorkspaceReference::Name(name)) => match s.referred_or_active(r) {
                    Some(x) => bears(s, x, name@),
                    None => forall|x: WorkspaceId| !(#[trigger] bears(s, x, name@)),
                },
                None => s.referred_or_active(r) == Some(v.active),
            }
        }),
{
    let act = s.acts.active;
    let out = s.monitors[s.focused].output.id;
    let v = crate::turning::lemma_strip(s);
    crate::coherence::lemma_view_is_ok(s, act, out);
    assert(s.pool.member(v.active, act));
    match r {
        Some(WorkspaceReference::Index(n)) => {
            if 0 < n <= v.ids.len() {
                assert(v.ids.contains(v.ids[n - 1]));
                assert(s.pool.member(v.ids[n - 1], act));
            }
        },
        Some(WorkspaceReference::Name(name)) => {
            let p = by_name(name@);
            lemma_find_from(s.pool.items, p, 0);
            match find(s.pool.items, p) {
                Some(i) => {
                    assert(p(s.pool.items[i]));
                    lemma_get(s.pool, s.pool.items[i].id);
                    crate::coherence::lemma_pos_of(s.pool, i);
                },
                None => {
                    assert forall|x: WorkspaceId| !(#[trigger] bears(s, x, name@)) by {
                        lemma_get(s.pool, x);
                        if let Some(i) = s.pool.pos(x) {
                            assert(!p(s.pool.items[i]));
                        }
                    }
                },
            }
        },
        _ => {},
    }
}

/// A reference finds the activity with that number, or the one with exactly that name.
pub proof fn law_reference_finds_its_activity(s: LayoutModel, r: ActivityReferenceArg)
    requires
        s.whole(),
    ensures
        match s.referred_activity(r) {
            Some(a) => exists|i: int|
                0 <= i < s.acts.list.len() && (#[trigger] s.acts.list[i]).id == a && match r {
                    ActivityReferenceArg::Id(raw) => a == ActivityId(raw),
                    ActivityReferenceArg::Name(name) => s.acts.list[i].name == name@,
                },
            None => forall|i: int|
                0 <= i < s.acts.list.len() ==> match r {
                    ActivityReferenceArg::Id(raw) => (#[trigger] s.acts.list[i]).id != ActivityId(raw),
                    ActivityReferenceArg::Name(name) => s.acts.list[i].name != name@,
                },
        },
{
    match r {
        ActivityReferenceArg::Id(raw) => {
            crate::coherence::lemma_act(s.acts, ActivityId(raw));
        },
        ActivityReferenceArg::Name(name) => {
            let p = titled(name@);
            lemma_find_from(s.acts.list, p, 0);
            match find(s.acts.list, p) {
                Some(i) => {
                    assert(p(s.acts.list[i]));
                },
                None => {
                    assert forall|i: int| 0 <= i < s.acts.list.len() implies (
                    #[trigger] s.acts.list[i]).name != name@ by {
                        assert(!p(s.acts.list[i]));
                    }
                },
            }
        },
    }
}

/// A reference within an activity finds a workspace of that activity alone, by its number or by its
/// name, and finds one if there is one.
pub proof fn law_reference_finds_within_an_activity(
    s: LayoutModel,
    act: ActivityId,
    r: WorkspaceReference,
)
    requires
        s.whole(),
    ensures
        match s.referred_in(act, r) {
            Ok(x) => s.pool.member(x, act) && match r {
                WorkspaceReference::Id(raw) => x == WorkspaceId(raw),
                WorkspaceReference::Name(name) => bears(s, x, name@),
                WorkspaceReference::Index(_) => false,
            },
            Err(_) => match r {
                WorkspaceReference::Id(raw) => !s.pool.member(WorkspaceId(raw), act),
                WorkspaceReference::Name(name) => forall|x: WorkspaceId|
                    s.pool.member(x, act) ==> !(#[trigger] bears(s, x, name@)),
                WorkspaceReference::Index(_) => true,
            },
        },
{
    if let WorkspaceReference::Name(name) = r {
        let p = by_name_in(act, name@);
        lemma_find_from(s.pool.items, p, 0);
        match find(s.pool.items, p) {
            Some(i) => {
                assert(p(s.pool.items[i]));
                crate::coherence::lemma_pos_of(s.pool, i);
            },
            None => {
                assert forall|x: WorkspaceId| s.pool.member(x, act) implies !(#[trigger] bears(
                    s,
                    x,
                    name@,
                )) by {
                    lemma_get(s.pool, x);
                    let i = s.pool.pos(x).unwrap();
                    assert(!p(s.pool.items[i]));
                }
            },
        }
    }
}

/// The window with the focus is the dragged one, if one is dragged, or the active window of the
/// active workspace on the focused output.
pub proof fn law_focus_is_on_the_active_window(s: LayoutModel, w: WindowId)
    requires
        s.whole(),
        s.monitors.len() > 0,
        !(s.moving is Some && s.moving.unwrap() is Moving),
    ensures
        ({
            let out = s.monitors[s.focused].output;
            let x = s.view_of(s.acts.active, out.id).unwrap().active;
            s.focus() == Some((w, out)) <==> s.pool.get(x).unwrap().active == Some(w) && count_on(
                s.pool,
                x,
                w,
            ) > 0
        }),
{
    let out = s.monitors[s.focused].output;
    let v = crate::turning::lemma_strip(s);
    let x = v.active;
    crate::aiming::lemma_active_place(s, s.focused);
    lemma_counted(s.pool, x, w);
    let ws = s.pool.get(x).unwrap();
    crate::coherence::lemma_view_is_ok(s, s.acts.active, out.id);
    assert(s.pool.member(x, s.acts.active));
    if let Some(u) = ws.active {
        lemma_find_from(ws.tiles, crate::workspace::shows(u), 0);
        if let Some(p) = ws.window_pos(u) {
            assert(crate::workspace::shows(u)(ws.tiles[p]));
        }
    }
}

/// A window is found on the workspace that has it, and a window that none has is not found.
pub proof fn law_window_is_found_on_its_workspace(s: LayoutModel, x: WorkspaceId, w: WindowId)
    requires
        s.whole(),
        s.single(),
    ensures
        count_on(s.pool, x, w) > 0 ==> {
            &&& s.home_of(w) == Some(x)
            &&& s.command_workspace(Some(w)) == Some(x)
            &&& s.on_active_activity(w) == Some(s.pool.member(x, s.acts.active))
            &&& forall|o: OutputId| #[trigger]
                s.shows_on(s.acts.active, o, x) ==> s.resident_workspace(w) == Some(x)
        },
        (forall|y: WorkspaceId| #[trigger] count_on(s.pool, y, w) == 0) ==> {
            &&& s.home_of(w) is None
            &&& s.on_active_activity(w) is None
            &&& s.resident_workspace(w) is None
        },
{
    let f = having(w);
    lemma_find_from(s.pool.items, f, 0);
    if let Some(j) = find(s.pool.items, f) {
        let y = s.pool.items[j].id;
        assert(f(s.pool.items[j]));
        crate::coherence::lemma_pos_of(s.pool, j);
        lemma_counted(s.pool, y, w);
        assert(count_on(s.pool, y, w) > 0);
    }
    if count_on(s.pool, x, w) > 0 {
        lemma_single(s, x, w);
        lemma_counted(s.pool, x, w);
        lemma_get(s.pool, x);
        assert(f(s.pool.items[s.pool.pos(x).unwrap()]));
        assert forall|o: OutputId| #[trigger] s.shows_on(
            s.acts.active,
            o,
            x,
        ) implies s.resident_workspace(w) == Some(x) by {
            let place = crate::aiming::lemma_window_place(s, o, w, x);
        }
    }
    if forall|y: WorkspaceId| #[trigger] count_on(s.pool, y, w) == 0 {
        let g = crate::windows::id_having(s.pool, w);
        assert forall|y: WorkspaceId| !(#[trigger] g(y)) by {
            lemma_counted(s.pool, y, w);
            assert(count_on(s.pool, y, w) == 0);
        }
        lemma_find_from(s.monitors, s.showing_window(w), 0);
        if let Some(m) = find(s.monitors, s.showing_window(w)) {
            assert(s.showing_window(w)(s.monitors[m]));
            lemma_find_from(s.active_view(s.monitors[m].output.id).unwrap().ids, g, 0);
        }
        lemma_find_from(s.parked, g, 0);
    }
}

} // verus!
