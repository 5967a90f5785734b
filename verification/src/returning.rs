//! An output that comes back finds what it showed when it went away.

use vstd::prelude::*;

use crate::activity::{keyed, EntryModel};
use crate::changing::lists_once;
use crate::coherence::{lemma_act_pos, lemma_get, lemma_same_ids, lemma_view_is_ok, member_ok};
use crate::connect::bound_for;
use crate::cores::{kin, lemma_filter_filter, lemma_filter_insert};
use crate::disconnect::firsts;
use crate::ids::{ActivityId, OutputId, WorkspaceId};
use crate::keeping_outputs::lemma_firsts;
use crate::keeping_views::lemma_filter;
use crate::layout::{on_output, LayoutModel};
use crate::materialize::ids_of;
use crate::mending::{covers, cut, in_use, new_to, news, shown_among, untangled};
use crate::monitor::Monitor;
use crate::parking::lemma_firsts_same;
use crate::pool::PoolModel;
use crate::search::{find, lemma_find_from};
use crate::steadying::{
    lemma_mint_steady, lemma_normalize_steady, lemma_steady_acts, lemma_steady_step,
    lemma_steady_trans, steady,
};
use crate::wholeness::{lemma_news, lemma_picked, picked};
use crate::workspace::{Output, WorkspaceModel};

verus! {

/// Picking from a pool what it has in use is steady.
pub proof fn lemma_picked_steady(
    s: LayoutModel,
    f: spec_fn(WorkspaceModel) -> bool,
    o: Output,
)
    requires
        s.staffed(),
        forall|w: WorkspaceModel| w.busy() ==> #[trigger] f(w),
    ensures
        steady(s, (LayoutModel { pool: picked(s.pool, f), ..s }), o),
{
    let t = LayoutModel { pool: picked(s.pool, f), ..s };
    lemma_picked(s.pool, f);
    assert forall|i: int| 0 <= i < t.pool.items.len() implies member_ok(
        s.acts,
        #[trigger] t.pool.items[i],
    ) by {
        let k = choose|k: int| 0 <= k < s.pool.items.len() && s.pool.items[k] == t.pool.items[i];
        assert(member_ok(s.acts, s.pool.items[k]));
    }
    if lists_once(s.pool) {
        assert forall|i: int| 0 <= i < t.pool.items.len() implies (
        #[trigger] t.pool.items[i]).activities.no_duplicates() by {
            assert(s.pool.items.contains(t.pool.items[i]));
            let k = choose|k: int|
                0 <= k < s.pool.items.len() && s.pool.items[k] == t.pool.items[i];
            assert(s.pool.items[k].activities.no_duplicates());
        }
    }
    assert forall|x: WorkspaceId| #[trigger] s.pool.busy(x) implies t.pool.busy(x) && kin(
        s.pool.get(x).unwrap(),
        t.pool.get(x).unwrap(),
    ) && (bound_for(s.pool, x, o) ==> bound_for(t.pool, x, o)) by {
        assert(f(s.pool.get(x).unwrap()));
    }
    assert forall|x: WorkspaceId| #[trigger] t.pool.busy(x) implies s.pool.busy(x) by {
        assert(t.pool.get(x) is Some);
    }
    assert forall|x: WorkspaceId| #[trigger] t.pool.has(x) implies x.0 >= s.pool.next || (
    s.pool.has(x) && kin(s.pool.get(x).unwrap(), t.pool.get(x).unwrap())) by {
        assert(t.pool.get(x) is Some);
    }
    lemma_steady_step(s, t, o);
}

/// Empty views are steady.
pub proof fn lemma_bare_row_steady(s: LayoutModel, act: ActivityId, n: int, o: Output)
    requires
        s.staffed(),
        s.acts.has(act),
        s.bare_row(act, n).fits(),
    ensures
        steady(s, s.bare_row(act, n), o),
    decreases n,
{
    lemma_steady_acts(s, s, o);
    if n > 0 {
        let t = s.bare_row(act, n - 1);
        let u = s.bare_row(act, n);
        crate::mending::lemma_open_bare_leads(t, n - 1, act);
        lemma_bare_row_steady(s, act, n - 1, o);
        lemma_same_ids(s.acts, t.acts);
        let out = t.monitors[n - 1].output.id;
        if t.view_of(act, out) is Some {
            lemma_steady_acts(t, t, o);
        } else {
            lemma_mint_steady(t, u, out, act, o);
        }
        lemma_steady_trans(s, t, u, o);
    }
}

/// Empty views are steady.
pub proof fn lemma_bare_rows_steady(s: LayoutModel, n: int, o: Output)
    requires
        s.staffed(),
        0 <= n <= s.acts.list.len(),
        s.bare_rows(n).fits(),
    ensures
        steady(s, s.bare_rows(n), o),
    decreases n,
{
    lemma_steady_acts(s, s, o);
    if n > 0 {
        let t = s.bare_rows(n - 1);
        let act = s.acts.list[n - 1].id;
        let k = s.monitors.len() as int;
        crate::mending::lemma_bare_row_leads(t, act, 0, k);
        lemma_bare_rows_steady(s, n - 1, o);
        lemma_act_pos(s.acts, n - 1);
        lemma_same_ids(s.acts, t.acts);
        assert(t.acts.has(act));
        lemma_bare_row_steady(t, act, k, o);
        lemma_steady_trans(s, t, s.bare_rows(n), o);
    }
}

/// Showing workspaces hands out no activity id.
pub proof fn lemma_seat_all_next(s: LayoutModel, ids: Seq<WorkspaceId>)
    ensures
        s.seat_all(ids).acts.next == s.acts.next,
    decreases ids.len(),
{
    if ids.len() > 0 {
        lemma_seat_all_next(s, ids.drop_last());
        lemma_seat_acts_next(s.seat_all(ids.drop_last()), ids.last(), s.acts.list.len() as int);
    }
}

/// Showing a workspace hands out no activity id.
pub proof fn lemma_seat_acts_next(s: LayoutModel, id: WorkspaceId, n: int)
    ensures
        s.seat_acts(id, n).acts.next == s.acts.next,
    decreases n,
{
    if n > 0 {
        lemma_seat_acts_next(s, id, n - 1);
    }
}

/// Mending loses no work.
pub proof fn lemma_mended_steady(s: LayoutModel, o: Output)
    requires
        s.staffed(),
        lists_once(s.pool),
        s.mended().fits(),
    ensures
        steady(s, s.mended(), o),
{
    let a = s.straightened();
    crate::mending::lemma_straightened_leads(s);
    assert(a.pool == s.pool) by {
        assert forall|i: int| 0 <= i < s.pool.items.len() implies #[trigger] a.pool.items[i]
            == s.pool.items[i] by {
            assert(s.pool.items[i].activities.no_duplicates());
            crate::wholeness::lemma_distinct_once(s.pool.items[i].activities);
        }
        assert(a.pool.items =~= s.pool.items);
    }
    lemma_steady_acts(s, a, o);
    crate::mending::lemma_arranged_leads(a);
    if s.monitors.len() == 0 {
        let b = LayoutModel { pool: picked(a.pool, in_use()), ..a };
        lemma_picked_steady(a, in_use(), o);
        lemma_steady_trans(s, a, b, o);
        assert(a.stow().pool == b.pool);
        lemma_steady_acts(b, a.stow(), o);
        lemma_steady_trans(s, b, a.stow(), o);
    } else {
        let b = a.untangle();
        crate::mending::lemma_untangle_leads(a);
        lemma_steady_acts(a, b, o);
        lemma_steady_trans(s, a, b, o);
        let c = a.covered();
        lemma_bare_rows_steady(b, b.acts.list.len() as int, o);
        lemma_steady_trans(s, b, c, o);
        let d = c.discard();
        lemma_picked_steady(c, c.needed(), o);
        assert(d == LayoutModel { pool: picked(c.pool, c.needed()), ..c });
        lemma_steady_trans(s, c, d, o);
        let ids = ids_of(d.pool.items);
        let e = d.seat_all(ids);
        crate::mending::lemma_seat_all_leads(d, ids);
        lemma_seat_all_next(d, ids);
        lemma_steady_acts(d, e, o);
        lemma_steady_trans(s, d, e, o);
        lemma_normalize_steady(e, e.monitors.len() as int, o);
        lemma_steady_trans(s, e, e.normalize(), o);
    }
}

/// Both views that activity `a` has of output `o` in `s` and in `t` show the same workspaces of those
/// that `q` picks, in the same order, and the same one is active.
pub open spec fn same_pick(
    s: LayoutModel,
    t: LayoutModel,
    a: ActivityId,
    o: OutputId,
    q: spec_fn(WorkspaceId) -> bool,
) -> bool {
    match (s.view_of(a, o), t.view_of(a, o)) {
        (Some(v), Some(w)) => w.ids.filter(q) == v.ids.filter(q) && w.active == v.active,
        _ => false,
    }
}

/// `q` picks only what activity `a` shows on output `o`.
pub open spec fn picks_shown(
    s: LayoutModel,
    a: ActivityId,
    o: OutputId,
    q: spec_fn(WorkspaceId) -> bool,
) -> bool {
    forall|x: WorkspaceId| #[trigger] q(x) ==> s.shows_on(a, o, x)
}

/// Showing a workspace to an activity leaves what is picked as it is.
pub proof fn lemma_seat_pick(
    s: LayoutModel,
    act: ActivityId,
    id: WorkspaceId,
    a: ActivityId,
    o: OutputId,
    q: spec_fn(WorkspaceId) -> bool,
)
    requires
        s.laid_out(),
        s.complete(),
        s.acts.has(act),
        s.view_of(a, o) is Some,
        picks_shown(s, a, o, q),
    ensures
        same_pick(s, s.seat(act, id), a, o, q),
        picks_shown(s.seat(act, id), a, o, q),
{
    crate::wholeness::lemma_seat(s, act, id);
    let t = s.seat(act, id);
    assert forall|x: WorkspaceId| #[trigger] q(x) implies t.shows_on(a, o, x) by {
        assert(s.shows_on(a, o, x));
    }
    if s.pool.member(id, act) && !s.shows_in(act, id) {
        let out = s.seat_of(id);
        if let Some(v) = s.view_of(act, out) {
            if v.position_of(id) is None {
                lemma_view_is_ok(s, act, out);
                let pos = crate::transfer::landing(s.pool, v, id);
                let w = v.insert(pos, id);
                crate::transfer::lemma_view_after_set(s.acts, act, out, w);
                if a != act || o != out {
                    crate::transfer::lemma_view_after_set_other(s.acts, act, out, w, a, o);
                } else {
                    assert(!q(id)) by {
                        if q(id) {
                            assert(s.shows_on(a, o, id));
                            crate::wholeness::lemma_is_shown(s, a, o, id);
                        }
                    }
                    lemma_filter_insert(v.ids, pos, id, q);
                }
            }
        }
    }
}

/// Showing a workspace to activities leaves what is picked as it is.
pub proof fn lemma_seat_acts_pick(
    s: LayoutModel,
    id: WorkspaceId,
    n: int,
    a: ActivityId,
    o: OutputId,
    q: spec_fn(WorkspaceId) -> bool,
)
    requires
        s.laid_out(),
        s.complete(),
        0 <= n <= s.acts.list.len(),
        s.view_of(a, o) is Some,
        picks_shown(s, a, o, q),
    ensures
        same_pick(s, s.seat_acts(id, n), a, o, q),
        picks_shown(s.seat_acts(id, n), a, o, q),
    decreases n,
{
    if n > 0 {
        lemma_seat_acts_pick(s, id, n - 1, a, o, q);
        crate::wholeness::lemma_seat_acts(s, id, n - 1);
        let t = s.seat_acts(id, n - 1);
        let act = s.acts.list[n - 1].id;
        lemma_act_pos(s.acts, n - 1);
        lemma_same_ids(s.acts, t.acts);
        assert(t.acts.has(act));
        lemma_seat_pick(t, act, id, a, o, q);
    }
}

/// Showing workspaces leaves what is picked as it is.
pub proof fn lemma_seat_all_pick(
    s: LayoutModel,
    ids: Seq<WorkspaceId>,
    a: ActivityId,
    o: OutputId,
    q: spec_fn(WorkspaceId) -> bool,
)
    requires
        s.laid_out(),
        s.complete(),
        s.view_of(a, o) is Some,
        picks_shown(s, a, o, q),
    ensures
        same_pick(s, s.seat_all(ids), a, o, q),
        picks_shown(s.seat_all(ids), a, o, q),
    decreases ids.len(),
{
    if ids.len() > 0 {
        lemma_seat_all_pick(s, ids.drop_last(), a, o, q);
        crate::wholeness::lemma_seat_all(s, ids.drop_last());
        let t = s.seat_all(ids.drop_last());
        assert(t.acts.list.len() == t.acts.ids().len());
        assert(s.acts.list.len() == s.acts.ids().len());
        lemma_seat_acts_pick(t, ids.last(), s.acts.list.len() as int, a, o, q);
    }
}

/// A new empty workspace leaves what is picked as it is.
pub proof fn lemma_mint_into_pick(
    s: LayoutModel,
    mon: int,
    act: ActivityId,
    pos: int,
    a: ActivityId,
    o: OutputId,
    q: spec_fn(WorkspaceId) -> bool,
)
    requires
        s.coherent(),
        0 <= mon < s.monitors.len(),
        s.mint_into(mon, act, pos).fits(),
        match s.view_of(act, s.monitors[mon].output.id) {
            Some(v) => 0 <= pos <= v.ids.len(),
            None => true,
        },
        s.view_of(a, o) is Some,
        picks_shown(s, a, o, q),
    ensures
        same_pick(s, s.mint_into(mon, act, pos), a, o, q),
        picks_shown(s.mint_into(mon, act, pos), a, o, q),
{
    crate::wholeness::lemma_mint_into_extends(s, mon, act, pos);
    let t = s.mint_into(mon, act, pos);
    let out = s.monitors[mon].output.id;
    assert forall|x: WorkspaceId| #[trigger] q(x) implies t.shows_on(a, o, x) by {
        assert(s.shows_on(a, o, x));
    }
    if let Some(v) = s.view_of(act, out) {
        let id = s.pool.next_id();
        let w = v.insert(pos, id);
        crate::transfer::lemma_view_after_set(s.acts, act, out, w);
        if a != act || o != out {
            crate::transfer::lemma_view_after_set_other(s.acts, act, out, w, a, o);
        } else {
            assert(!q(id)) by {
                if q(id) {
                    assert(s.shows_on(a, o, id));
                    lemma_view_is_ok(s, a, o);
                    assert(s.pool.member(id, a));
                    lemma_get(s.pool, id);
                }
            }
            lemma_filter_insert(v.ids, pos, id, q);
        }
    }
}

/// Missing bookends leave what is picked as it is.
pub proof fn lemma_normalize_acts_pick(
    s: LayoutModel,
    mon: int,
    n: int,
    a: ActivityId,
    o: OutputId,
    q: spec_fn(WorkspaceId) -> bool,
)
    requires
        s.coherent(),
        0 <= mon < s.monitors.len(),
        s.normalize_acts(mon, n).fits(),
        s.view_of(a, o) is Some,
        picks_shown(s, a, o, q),
    ensures
        same_pick(s, s.normalize_acts(mon, n), a, o, q),
        picks_shown(s.normalize_acts(mon, n), a, o, q),
    decreases n,
{
    if n > 0 {
        let t = s.normalize_acts(mon, n - 1);
        let act = s.acts.list[n - 1].id;
        crate::bookends::lemma_normalize_acts_leads(s, mon, n - 1, n - 1);
        crate::bookends::lemma_normalize_view_leads(t, mon, act);
        lemma_normalize_acts_pick(s, mon, n - 1, a, o, q);
        crate::keeping::lemma_normalize_acts(s, mon, n - 1);
        let u = s.normalize_acts(mon, n);
        if let Some(v) = t.view_of(act, t.monitors[mon].output.id) {
            let k = v.ids.len() as int;
            let lower = if t.pool.busy(v.ids.last()) {
                t.mint_into(mon, act, k)
            } else {
                t
            };
            crate::bookends::lemma_mint_into_leads(t, mon, act, k);
            crate::bookends::lemma_mint_into_leads(lower, mon, act, 0);
            if k > 0 {
                assert(lower.before(u));
                if t.pool.busy(v.ids.last()) {
                    lemma_mint_into_pick(t, mon, act, k, a, o, q);
                    crate::keeping::lemma_mint_into(t, mon, act, k);
                }
                if u != lower {
                    lemma_mint_into_pick(lower, mon, act, 0, a, o, q);
                }
            }
        }
    }
}

/// Missing bookends leave what is picked as it is.
pub proof fn lemma_normalize_pick(
    s: LayoutModel,
    n: int,
    a: ActivityId,
    o: OutputId,
    q: spec_fn(WorkspaceId) -> bool,
)
    requires
        s.coherent(),
        n <= s.monitors.len(),
        s.normalize_mons(n).fits(),
        s.view_of(a, o) is Some,
        picks_shown(s, a, o, q),
    ensures
        same_pick(s, s.normalize_mons(n), a, o, q),
        picks_shown(s.normalize_mons(n), a, o, q),
    decreases n,
{
    if n > 0 {
        let t = s.normalize_mons(n - 1);
        let k = s.acts.list.len() as int;
        crate::bookends::lemma_normalize_mons_leads(s, n - 1, n - 1);
        crate::bookends::lemma_normalize_acts_leads(t, n - 1, k, k);
        lemma_normalize_pick(s, n - 1, a, o, q);
        crate::keeping::lemma_normalize_mons(s, n - 1);
        lemma_normalize_acts_pick(t, n - 1, k, a, o, q);
    }
}

/// The first occurrences of what is picked are what is picked of the first occurrences.
pub proof fn lemma_firsts_filter(s: Seq<WorkspaceId>, q: spec_fn(WorkspaceId) -> bool)
    ensures
        firsts(s).filter(q) == firsts(s.filter(q)),
    decreases s.len(),
{
    reveal(Seq::filter);
    if s.len() > 0 {
        let rest = s.drop_last();
        let x = s.last();
        lemma_firsts_filter(rest, q);
        lemma_firsts(rest);
        lemma_firsts(rest.filter(q));
        lemma_filter(rest, q);
        let f = rest.filter(q);
        if q(x) {
            assert(s.filter(q) == f.push(x));
            assert(f.push(x).drop_last() =~= f);
            assert(firsts(rest).contains(x) <==> rest.contains(x));
            assert(firsts(f).contains(x) <==> f.contains(x));
            if !firsts(rest).contains(x) {
                assert(firsts(rest).push(x).drop_last() =~= firsts(rest));
            }
        } else {
            assert(s.filter(q) == f);
            if !firsts(rest).contains(x) {
                assert(firsts(rest).push(x).drop_last() =~= firsts(rest));
            }
        }
    }
}

/// Every untangled view stems from one of the same output that shows all that it does.
pub proof fn lemma_untangled_from(
    pool: PoolModel,
    monitors: Seq<Monitor>,
    act: ActivityId,
    entries: Seq<EntryModel>,
    j: int,
) -> (k: int)
    requires
        0 <= j < untangled(pool, monitors, act, entries).len(),
    ensures
        0 <= k < entries.len(),
        entries[k].output == untangled(pool, monitors, act, entries)[j].output,
        forall|x: WorkspaceId| #[trigger]
            untangled(pool, monitors, act, entries)[j].view.ids.contains(x)
                ==> entries[k].view.ids.contains(x),
    decreases entries.len(),
{
    let before = entries.drop_last();
    let rest = untangled(pool, monitors, act, before);
    let e = entries.last();
    if j < rest.len() {
        let k = lemma_untangled_from(pool, monitors, act, before, j);
        assert(entries[k] == before[k]);
        k
    } else {
        lemma_news(pool, act, rest, e.view);
        entries.len() - 1
    }
}

/// What is picked from the first view of an output stays as it is when views are untangled.
pub proof fn lemma_untangled_pick(
    pool: PoolModel,
    monitors: Seq<Monitor>,
    act: ActivityId,
    entries: Seq<EntryModel>,
    out: OutputId,
    q: spec_fn(WorkspaceId) -> bool,
)
    requires
        find(entries, keyed(out)) is Some,
        find(monitors, on_output(out)) is Some,
        ({
            let v = entries[find(entries, keyed(out)).unwrap()].view;
            &&& v.ids.filter(q).no_duplicates()
            &&& v.ids.filter(q).len() > 0
            &&& forall|x: WorkspaceId| #[trigger] q(x) ==> v.ids.contains(x) && pool.member(x, act)
        }),
        forall|j: int, x: WorkspaceId|
            0 <= j < entries.len() && entries[j].output != out && #[trigger] q(x) ==> !(
            #[trigger] entries[j].view.ids.contains(x)),
    ensures
        ({
            let r = untangled(pool, monitors, act, entries);
            let v = entries[find(entries, keyed(out)).unwrap()].view;
            &&& find(r, keyed(out)) is Some
            &&& r[find(r, keyed(out)).unwrap()].view.ids.filter(q) == v.ids.filter(q)
            &&& q(v.active) ==> r[find(r, keyed(out)).unwrap()].view.active == v.active
        }),
    decreases entries.len(),
{
    let n = entries.len() - 1;
    lemma_find_from(entries, keyed(out), 0);
    let k = find(entries, keyed(out)).unwrap();
    let v = entries[k].view;
    let before = entries.drop_last();
    let rest = untangled(pool, monitors, act, before);
    let e = entries.last();
    let r = untangled(pool, monitors, act, entries);
    lemma_find_from(before, keyed(out), 0);
    lemma_find_from(rest, keyed(out), 0);
    lemma_find_from(r, keyed(out), 0);
    if k < n {
        assert(before[k] == entries[k]);
        assert(keyed(out)(before[k]));
        assert(find(before, keyed(out)) == Some(k)) by {
            let b = find(before, keyed(out));
            assert(b is Some);
            let i = b.unwrap();
            assert(entries[i] == before[i]);
            if i < k {
                assert(!keyed(out)(entries[i]));
            } else if k < i {
                assert(!keyed(out)(before[k]));
            }
        }
        assert forall|j: int, x: WorkspaceId|
            0 <= j < before.len() && before[j].output != out && #[trigger] q(x) implies !(
        #[trigger] before[j].view.ids.contains(x)) by {
            assert(before[j] == entries[j]);
            assert(!entries[j].view.ids.contains(x));
        }
        lemma_untangled_pick(pool, monitors, act, before, out, q);
        let f = find(rest, keyed(out)).unwrap();
        assert(r[f] == rest[f]);
        assert(keyed(out)(r[f]));
        assert(find(r, keyed(out)) == Some(f)) by {
            let i = find(r, keyed(out)).unwrap();
            if i < f {
                assert(r[i] == rest[i]);
                assert(!keyed(out)(rest[i]));
            } else if f < i {
                assert(!keyed(out)(r[f]));
            }
        }
    } else {
        assert(e == entries[k]);
        assert(!covers(rest, out)) by {
            if covers(rest, out) {
                let j = choose|j: int| 0 <= j < rest.len() && (#[trigger] rest[j]).output == out;
                let b = lemma_untangled_from(pool, monitors, act, before, j);
                assert(entries[b] == before[b]);
                assert(!keyed(out)(entries[b]));
            }
        }
        assert forall|x: WorkspaceId| #[trigger] q(x) implies !shown_among(rest, x) by {
            if shown_among(rest, x) {
                let j = choose|j: int|
                    0 <= j < rest.len() && (#[trigger] rest[j]).view.ids.contains(x);
                let b = lemma_untangled_from(pool, monitors, act, before, j);
                assert(entries[b] == before[b]);
                assert(!keyed(out)(entries[b]));
                assert(entries[b].view.ids.contains(x));
            }
        }
        let p = new_to(pool, act, rest);
        let ids = news(pool, act, rest, v);
        lemma_news(pool, act, rest, v);
        lemma_filter_filter(v.ids, p, q);
        lemma_firsts_filter(v.ids.filter(p), q);
        lemma_firsts_same(v.ids.filter(q));
        assert(ids.filter(q) == v.ids.filter(q));
        lemma_filter(ids, q);
        assert(ids.len() > 0);
        assert(r == rest.push(EntryModel { view: cut(v, ids), ..e }));
        assert(keyed(out)(r[rest.len() as int]));
        assert(find(r, keyed(out)) == Some(rest.len() as int)) by {
            let i = find(r, keyed(out)).unwrap();
            if i < rest.len() {
                assert(r[i] == rest[i]);
                assert(rest[i].output == out);
            }
        }
        if q(v.active) {
            assert(ids.contains(v.active));
        }
    }
}

/// Mending leaves what is picked from a view as it is, as long as the activity shows it nowhere else.
pub proof fn lemma_mended_pick(
    s: LayoutModel,
    a: ActivityId,
    o: OutputId,
    q: spec_fn(WorkspaceId) -> bool,
)
    requires
        s.staffed(),
        lists_once(s.pool),
        s.monitors.len() > 0,
        s.monitor_pos(o) is Some,
        s.mended().fits(),
        match s.view_of(a, o) {
            Some(v) => v.ids.filter(q).no_duplicates() && v.ids.filter(q).len() > 0 && forall|
                x: WorkspaceId,
            | #[trigger] q(x) ==> v.ids.contains(x) && s.pool.member(x, a),
            None => false,
        },
        forall|j: int, x: WorkspaceId|
            0 <= j < s.acts.get(a).unwrap().views.len() && s.acts.get(a).unwrap().views[j].output
                != o && #[trigger] q(x) ==> !(#[trigger] s.acts.get(a).unwrap().views[j].view.ids.contains(
                x,
            )),
    ensures
        match (s.view_of(a, o), s.mended().view_of(a, o)) {
            (Some(v), Some(w)) => w.ids.filter(q) == v.ids.filter(q) && (q(v.active) ==> w.active
                == v.active),
            _ => false,
        },
{
    let v = s.view_of(a, o).unwrap();
    let b = s.straightened();
    crate::mending::lemma_straightened_leads(s);
    crate::wholeness::lemma_straightened(s);
    assert(b.acts.list == s.acts.list);
    let (i, k) = crate::wholeness::lemma_view_entry(s, a, o);
    crate::mending::lemma_arranged_leads(b);
    let u = b.untangle();
    crate::mending::lemma_untangle_leads(b);
    lemma_same_ids(b.acts, u.acts);
    let entries = s.acts.list[i].views;
    assert(s.acts.get(a) == Some(s.acts.list[i]));
    lemma_find_from(entries, keyed(o), 0);
    assert forall|x: WorkspaceId| #[trigger] q(x) implies v.ids.contains(x) && b.pool.member(
        x,
        a,
    ) by {
        assert(s.pool.member(x, a));
        assert(b.pool.member(x, a) == s.pool.member(x, a));
    }
    lemma_untangled_pick(b.pool, b.monitors, a, entries, o, q);
    let r = untangled(b.pool, b.monitors, a, entries);
    assert(u.acts.list[i].views == r);
    assert(u.acts.pos(a) == b.acts.pos(a));
    assert(b.acts.pos(a) == s.acts.pos(a)) by {
        lemma_same_ids(b.acts, s.acts);
    }
    assert(u.view_of(a, o) == Some(r[find(r, keyed(o)).unwrap()].view)) by {
        lemma_find_from(r, keyed(o), 0);
    }
    let w = u.view_of(a, o).unwrap();
    lemma_filter(v.ids, q);
    lemma_filter(w.ids, q);
    assert forall|x: WorkspaceId| #[trigger] q(x) implies u.shows_on(a, o, x) by {
        assert(v.ids.contains(x));
        assert(v.ids.filter(q).contains(x));
        assert(w.ids.filter(q).contains(x));
    }
    crate::wholeness::lemma_untangle(b);
    let c = b.covered();
    let d = c.discard();
    assert(c.fits()) by {
        crate::mending::lemma_seat_all_leads(d, ids_of(d.pool.items));
    }
    crate::wholeness::lemma_covered(b);
    crate::wholeness::lemma_bare_rows(u, u.acts.list.len() as int);
    assert(c.view_of(a, o) == u.view_of(a, o));
    crate::wholeness::lemma_discard(c);
    assert(d.view_of(a, o) == c.view_of(a, o));
    assert forall|x: WorkspaceId| #[trigger] q(x) implies d.shows_on(a, o, x) by {
        assert(u.shows_on(a, o, x));
    }
    let ids = ids_of(d.pool.items);
    lemma_seat_all_pick(d, ids, a, o, q);
    crate::wholeness::lemma_seat_all(d, ids);
    let e = d.seat_all(ids);
    assert(e.coherent());
    lemma_normalize_pick(e, e.monitors.len() as int, a, o, q);
}

} // verus!
