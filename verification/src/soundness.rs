//! What the layout's checks ask follows from what operations keep and from the rules on names,
//! routes, swipes, grabbed windows and bookmarks.

use vstd::prelude::*;

use crate::activity::{holding, keyed};
use crate::belonging::lemma_entry_is_view;
use crate::census::{lemma_tally, lemma_tiles_of, tally, tiles_of};
use crate::coherence::{lemma_act, lemma_act_pos, lemma_view_is_ok};
use crate::ids::{ActivityId, OutputId, WindowId, WorkspaceId};
use crate::layout::{on_output, LayoutModel};
use crate::lookup::having;
use crate::search::{equal_to, find, lemma_find_from};
use crate::transfer::shows_workspace;
use crate::workspace::shows;

verus! {

/// A window counts exactly while it is in the layout.
pub proof fn law_counted_windows_are_there(s: LayoutModel, w: WindowId)
    requires
        s.pool.wf(),
    ensures
        s.has_window(w) <==> s.census(w) > 0,
        s.census(w) >= 0,
{
    lemma_tally(s.pool.items, w);
    if tally(s.pool.items, w) > 0 {
        crate::ordering::lemma_tallied(s.pool, w);
    }
    lemma_find_from(s.pool.items, having(w), 0);
    if let Some(i) = find(s.pool.items, having(w)) {
        let ts = s.pool.items[i].tiles;
        lemma_find_from(ts, shows(w), 0);
        let k = s.pool.items[i].window_pos(w).unwrap();
        assert(ts[k].window.id == w);
        lemma_tiles_of(ts, w);
        assert(tiles_of(s.pool.items[i].tiles, w) > 0);
    }
}

impl LayoutModel {
    /// The rules on names, routes, swipes, grabbed windows and bookmarks.
    pub open spec fn ruled(self) -> bool {
        let strip = self.strip(self.monitors.len() as int);
        &&& self.move_sound()
        &&& self.bookmarks_sound()
        &&& if self.monitors.len() == 0 {
            self.names_distinct(self.parked)
        } else {
            &&& forall|m: int|
                0 <= m < self.monitors.len() ==> match self.active_view(
                    (#[trigger] self.monitors[m]).output.id,
                ) {
                    Some(v) => self.homes_sound(m, v.ids),
                    None => true,
                }
            &&& forall|m: int, i: int|
                0 <= m < self.monitors.len() && 0 <= i < self.acts.list.len()
                    && self.monitors[m].empty_workspace_above_first ==> match (
                #[trigger] self.acts.list[i]).view_of((#[trigger] self.monitors[m]).output.id) {
                    Some(v) => v.ids.len() == 2 ==> self.pool.shared(v.ids[1]),
                    None => true,
                }
            &&& self.names_distinct(strip)
            &&& self.dnd is None && self.moving is None ==> self.slides_alone(strip)
        }
    }
}

/// An activity of a whole layout has one usable view of each connected output and no others.
pub proof fn lemma_activities(s: LayoutModel, i: int)
    requires
        s.whole(),
        0 <= i < s.acts.list.len(),
    ensures
        s.activity_sound(s.acts.list[i]),
        s.acts.list[i].views.len() == s.monitors.len(),
{
    let a = s.acts.list[i];
    lemma_act_pos(s.acts, i);
    assert forall|j: int| 0 <= j < a.views.len() implies s.entry_sound(
        a.id,
        #[trigger] a.views[j],
    ) by {
        lemma_entry_is_view(s, i, j);
        let o = a.views[j].output;
        assert(s.view_of(a.id, o) is Some);
        assert(crate::coherence::activity_ok(s.pool, a));
        let v = a.views[j].view;
        assert forall|k: int| 0 <= k < v.ids.len() implies s.is_member(
            a.id,
            #[trigger] v.ids[k],
        ) by {
            assert(v.ids.contains(v.ids[k]));
            assert(s.pool.member(v.ids[k], a.id));
        }
    }
    assert(crate::coherence::activity_ok(s.pool, a));
    assert forall|m: int| 0 <= m < s.monitors.len() implies a.view_of(
        (#[trigger] s.monitors[m]).output.id,
    ) is Some by {
        assert(s.view_of(s.acts.list[i].id, s.monitors[m].output.id) is Some);
    }
    let outs = Seq::new(a.views.len(), |j: int| a.views[j].output);
    let mons = Seq::new(s.monitors.len(), |m: int| s.monitors[m].output.id);
    assert(outs.no_duplicates());
    assert(mons.no_duplicates()) by {
        assert forall|x: int, y: int| 0 <= x < mons.len() && 0 <= y < mons.len() && x
            != y implies mons[x] != mons[y] by {
            if x < y {
                assert(crate::cores::apart(s.monitors[x].output, s.monitors[y].output));
            } else {
                assert(crate::cores::apart(s.monitors[y].output, s.monitors[x].output));
            }
        }
    }
    assert(outs.to_set() =~= mons.to_set()) by {
        assert forall|o: OutputId| outs.to_set().contains(o) <==> mons.to_set().contains(o) by {
            if outs.contains(o) {
                let j = choose|j: int| 0 <= j < outs.len() && outs[j] == o;
                assert(s.entry_sound(a.id, a.views[j]));
                lemma_find_from(s.monitors, on_output(o), 0);
                let m = s.monitor_pos(o).unwrap();
                assert(mons[m] == o);
            }
            if mons.contains(o) {
                let m = choose|m: int| 0 <= m < mons.len() && mons[m] == o;
                assert(a.view_of(s.monitors[m].output.id) is Some);
                lemma_find_from(a.views, keyed(o), 0);
                let j = find(a.views, keyed(o)).unwrap();
                assert(outs[j] == o);
            }
        }
    }
    outs.unique_seq_to_set();
    mons.unique_seq_to_set();
}

/// What the first `n` monitors show is shown on one of them.
pub proof fn lemma_strip_holds(s: LayoutModel, n: int, x: WorkspaceId)
    requires
        0 <= n <= s.monitors.len(),
        s.strip(n).contains(x),
    ensures
        exists|m: int|
            0 <= m < n && s.shows_on(s.acts.active, (#[trigger] s.monitors[m]).output.id, x),
    decreases n,
{
    if n > 0 {
        let out = s.monitors[n - 1].output.id;
        let last = match s.active_view(out) {
            Some(v) => v.ids,
            None => Seq::empty(),
        };
        let rest = s.strip(n - 1);
        let k = choose|k: int| 0 <= k < s.strip(n).len() && s.strip(n)[k] == x;
        if k < rest.len() {
            assert(rest[k] == x);
            lemma_strip_holds(s, n - 1, x);
        } else {
            assert(last[k - rest.len()] == x);
            assert(s.shows_on(s.acts.active, s.monitors[n - 1].output.id, x));
        }
    }
}

/// No workspace is on screen twice.
pub proof fn lemma_strip_once(s: LayoutModel, n: int)
    requires
        s.whole(),
        0 <= n <= s.monitors.len(),
    ensures
        s.strip(n).no_duplicates(),
    decreases n,
{
    if n > 0 {
        lemma_strip_once(s, n - 1);
        let out = s.monitors[n - 1].output.id;
        let rest = s.strip(n - 1);
        if let Some(v) = s.active_view(out) {
            lemma_view_is_ok(s, s.acts.active, out);
            let all = s.strip(n);
            assert forall|i: int, j: int| 0 <= i < j < all.len() implies all[i] != all[j] by {
                if i < rest.len() && j >= rest.len() && all[i] == all[j] {
                    let x = all[i];
                    assert(rest[i] == x);
                    assert(v.ids[j - rest.len()] == x);
                    lemma_strip_holds(s, n - 1, x);
                    let m = choose|m: int|
                        0 <= m < n - 1 && s.shows_on(
                            s.acts.active,
                            (#[trigger] s.monitors[m]).output.id,
                            x,
                        );
                    assert(s.shows_on(s.acts.active, out, x));
                    assert(crate::cores::apart(s.monitors[m].output, s.monitors[n - 1].output));
                }
            }
        }
    }
}

/// A workspace of a whole layout waits or is shown by each of its activities.
pub proof fn lemma_anchored(s: LayoutModel, i: int)
    requires
        s.whole(),
        0 <= i < s.pool.items.len(),
    ensures
        s.anchored(s.pool.items[i]),
        s.member_sound(s.pool.items[i]),
{
    let w = s.pool.items[i];
    crate::coherence::lemma_pos_of(s.pool, i);
    assert(s.pool.has(w.id));
    assert(crate::coherence::member_ok(s.acts, w));
    assert forall|j: int| 0 <= j < w.activities.len() implies s.acts.has(
        #[trigger] w.activities[j],
    ) by {
        assert(w.activities.contains(w.activities[j]));
    }
    if s.monitors.len() > 0 {
        assert forall|j: int| 0 <= j < w.activities.len() implies s.shows_in(
            #[trigger] w.activities[j],
            w.id,
        ) by {
            lemma_shown(s, w.id, w.activities[j]);
        }
        lemma_shown(s, w.id, w.activities[0]);
    }
}

/// What belongs to an activity is shown by it.
pub proof fn lemma_shown(s: LayoutModel, x: WorkspaceId, a: ActivityId)
    requires
        s.whole(),
        s.monitors.len() > 0,
        s.pool.member(x, a),
    ensures
        s.shows_in(a, x),
        s.is_shown(x),
{
    let o = choose|o: OutputId| s.shows_on(a, o, x);
    assert(s.shows_on(a, o, x));
    lemma_act(s.acts, a);
    let i = s.acts.pos(a).unwrap();
    let act = s.acts.list[i];
    lemma_find_from(act.views, keyed(o), 0);
    let j = find(act.views, keyed(o)).unwrap();
    let v = act.views[j].view;
    let k = choose|k: int| 0 <= k < v.ids.len() && v.ids[k] == x;
    lemma_find_from(v.ids, equal_to(x), 0);
    assert(equal_to(x)(v.ids[k]));
    lemma_find_from(act.views, holding(x), 0);
    assert(holding(x)(act.views[j]));
    lemma_find_from(s.acts.list, shows_workspace(x), 0);
    assert(shows_workspace(x)(act));
}

/// A layout that is whole and in order passes the checks exactly if it keeps to the rules on names,
/// routes, swipes, grabbed windows and bookmarks.
pub proof fn law_whole_and_orderly_is_sound(s: LayoutModel)
    requires
        s.whole(),
        s.orderly(),
    ensures
        s.sound() <==> s.ruled(),
{
    assert forall|i: int| 0 <= i < s.acts.list.len() implies s.activity_sound(
        #[trigger] s.acts.list[i],
    ) by {
        lemma_activities(s, i);
    }
    lemma_act(s.acts, s.acts.active);
    lemma_activities(s, s.acts.pos(s.acts.active).unwrap());
    assert(s.acts_sound()) by {
        assert forall|i: int, j: int| 0 <= i < s.acts.ids().len() && 0 <= j < s.acts.ids().len() && i
            != j implies s.acts.ids()[i] != s.acts.ids()[j] by {
            lemma_act_pos(s.acts, i);
            lemma_act_pos(s.acts, j);
        }
    }
    assert forall|i: int| 0 <= i < s.pool.items.len() implies s.member_sound(
        #[trigger] s.pool.items[i],
    ) && s.anchored(s.pool.items[i]) by {
        lemma_anchored(s, i);
    }
    assert(s.parked_sound()) by {
        assert forall|i: int| 0 <= i < s.parked.len() implies s.pool.has(#[trigger] s.parked[i])
            && !s.is_shown(s.parked[i]) by {
            lemma_unshown(s, s.parked[i]);
        }
    }
    lemma_strip_once(s, s.monitors.len() as int);
    if s.monitors.len() > 0 {
        assert forall|m: int| 0 <= m < s.monitors.len() implies s.active_view(
            (#[trigger] s.monitors[m]).output.id,
        ) is Some by {
            let i = s.acts.pos(s.acts.active).unwrap();
            assert(s.view_of(s.acts.list[i].id, s.monitors[m].output.id) is Some);
        }
        assert forall|m: int, i: int|
            0 <= m < s.monitors.len() && 0 <= i < s.acts.list.len() implies match (
        #[trigger] s.acts.list[i]).view_of((#[trigger] s.monitors[m]).output.id) {
            Some(v) => v.ids.len() > 0 && !s.pool.busy(v.ids.last()) && (
            s.monitors[m].empty_workspace_above_first ==> !s.pool.busy(v.ids[0])),
            None => true,
        } by {
            lemma_act_pos(s.acts, i);
            assert(s.ends_empty(s.acts.list[i].id, m));
            lemma_view_is_ok(s, s.acts.list[i].id, s.monitors[m].output.id);
        }
        if s.ruled() {
            assert forall|m: int| 0 <= m < s.monitors.len() implies s.monitor_sound(
                #[trigger] s.monitors[m],
            ) by {
                assert(s.monitor_agrees(s.monitors[m]));
            }
            assert(s.shown_state());
        }
        if s.sound() {
            assert forall|m: int, i: int|
                0 <= m < s.monitors.len() && 0 <= i < s.acts.list.len()
                    && s.monitors[m].empty_workspace_above_first implies match (
            #[trigger] s.acts.list[i]).view_of((#[trigger] s.monitors[m]).output.id) {
                Some(v) => v.ids.len() == 2 ==> s.pool.shared(v.ids[1]),
                None => true,
            } by {
                assert(s.monitor_sound(s.monitors[m]));
            }
        }
    }
}

/// Nobody shows a workspace while no output is connected.
pub proof fn lemma_unshown(s: LayoutModel, x: WorkspaceId)
    requires
        s.whole(),
        s.monitors.len() == 0,
    ensures
        !s.is_shown(x),
{
    assert forall|i: int| 0 <= i < s.acts.list.len() implies (
    #[trigger] s.acts.list[i]).views.len() == 0 by {
        lemma_activities(s, i);
    }
    lemma_find_from(s.acts.list, shows_workspace(x), 0);
    if let Some(i) = find(s.acts.list, shows_workspace(x)) {
        assert(s.acts.list[i].views.len() == 0);
        lemma_find_from(s.acts.list[i].views, holding(x), 0);
    }
}

} // verus!
