//! An output that comes back shows what it showed.

use vstd::prelude::*;

use crate::activity::{keyed, ActivityModel, EntryModel};
use crate::coherence::{lemma_act, lemma_same_ids, lemma_view_is_ok};
use crate::connect::bound_for;
use crate::cores::{apart, lemma_filter_filter, lemma_filter_none, view_core};
use crate::disconnect::firsts;
use crate::ids::{ActivityId, OutputId, WorkspaceId};
use crate::keeping_outputs::lemma_firsts;
use crate::keeping_views::lemma_filter;
use crate::layout::{on_output, LayoutModel};
use crate::outages::{lemma_connect, lemma_disconnect};
use crate::outputs::worth_keeping;
use crate::parking::lemma_firsts_same;
use crate::returning::{lemma_firsts_filter, lemma_mended_pick};
use crate::search::{find, lemma_find_from};
use crate::settling::one_of;
use crate::sparing::{law_disconnecting_spares_the_rest, lemma_core_holds};
use crate::changing::lists_once;
use crate::steadying::{lemma_steady_acts, lemma_steady_trans, spares, steady};
use crate::strips::{
    comes_back, latest, listing, not_among, off_connector, refilled, settled_entries, settled_entry,
    strip_at, strips_on, welcomed, StripModel,
};
use crate::view::ViewModel;
use crate::workspace::Output;

verus! {

/// What an activity showed is found among the strips.
pub proof fn lemma_strips_on(list: Seq<ActivityModel>, c: OutputId, out: OutputId, i: int)
    requires
        0 <= i < list.len(),
        list[i].view_of(out) is Some,
        forall|j: int, k: int|
            0 <= j < k < list.len() ==> (#[trigger] list[j]).id != (#[trigger] list[k]).id,
    ensures
        ({
            let s = strips_on(list, c, out);
            let v = list[i].view_of(out).unwrap();
            match find(s, strip_at(c, list[i].id)) {
                Some(k) => s[k] == (StripModel {
                    connector: c,
                    act: list[i].id,
                    ids: v.ids,
                    active: v.active,
                }),
                None => false,
            }
        }),
    decreases list.len(),
{
    let rest = list.drop_last();
    let n = list.len() - 1;
    let a = strips_on(rest, c, out);
    let s = strips_on(list, c, out);
    let p = strip_at(c, list[i].id);
    lemma_find_from(a, p, 0);
    lemma_find_from(s, p, 0);
    if i < n {
        assert(rest[i] == list[i]);
        assert forall|j: int, k: int| 0 <= j < k < rest.len() implies (#[trigger] rest[j]).id != (
        #[trigger] rest[k]).id by {
            assert(list[j].id != list[k].id);
        }
        lemma_strips_on(rest, c, out, i);
        let k = find(a, p).unwrap();
        assert(s[k] == a[k]);
        assert(p(s[k]));
        let f = find(s, p).unwrap();
        if f < k {
            assert(s[f] == a[f]);
            assert(!p(a[f]));
        } else if k < f {
            assert(!p(s[k]));
        }
    } else {
        lemma_strips_of(rest, c, out);
        let k = a.len() as int;
        assert(p(s[k]));
        let f = find(s, p).unwrap();
        if f < k {
            assert(s[f] == a[f]);
            let j = choose|j: int| 0 <= j < rest.len() && rest[j].id == a[f].act;
            assert(list[j].id != list[n].id);
        }
    }
}

/// Every strip is of one of the activities.
pub proof fn lemma_strips_of(list: Seq<ActivityModel>, c: OutputId, out: OutputId)
    ensures
        forall|f: int|
            0 <= f < strips_on(list, c, out).len() ==> exists|j: int|
                0 <= j < list.len() && list[j].id == (#[trigger] strips_on(list, c, out)[f]).act,
    decreases list.len(),
{
    if list.len() > 0 {
        let rest = list.drop_last();
        lemma_strips_of(rest, c, out);
        let a = strips_on(rest, c, out);
        let s = strips_on(list, c, out);
        assert forall|f: int| 0 <= f < s.len() implies exists|j: int|
            0 <= j < list.len() && list[j].id == (#[trigger] s[f]).act by {
            if f < a.len() {
                assert(s[f] == a[f]);
                let j = choose|j: int| 0 <= j < rest.len() && rest[j].id == a[f].act;
                assert(list[j].id == s[f].act);
            } else {
                assert(list[list.len() - 1].id == s[f].act);
            }
        }
    }
}

/// What comes after strips of other connectors is found there.
pub proof fn lemma_strip_behind(
    kept: Seq<StripModel>,
    more: Seq<StripModel>,
    c: OutputId,
    act: ActivityId,
)
    requires
        find(more, strip_at(c, act)) is Some,
    ensures
        ({
            let s = kept.filter(off_connector(c)) + more;
            match find(s, strip_at(c, act)) {
                Some(k) => s[k] == more[find(more, strip_at(c, act)).unwrap()],
                None => false,
            }
        }),
{
    let p = strip_at(c, act);
    let head = kept.filter(off_connector(c));
    let s = head + more;
    lemma_filter_off(kept, c);
    lemma_find_from(more, p, 0);
    lemma_find_from(s, p, 0);
    let k = find(more, p).unwrap();
    assert(s[head.len() + k] == more[k]);
    assert(p(s[head.len() + k]));
    let f = find(s, p).unwrap();
    if f < head.len() {
        assert(s[f] == head[f]);
        assert(head[f].connector != c);
    } else if f < head.len() + k {
        assert(s[f] == more[f - head.len()]);
        assert(!p(more[f - head.len()]));
    } else if head.len() + k < f {
        assert(!p(s[head.len() + k]));
    }
}

/// What is kept off a connector is off it.
pub proof fn lemma_filter_off(kept: Seq<StripModel>, c: OutputId)
    ensures
        forall|i: int|
            0 <= i < kept.filter(off_connector(c)).len() ==> (#[trigger] kept.filter(
                off_connector(c),
            )[i]).connector != c,
    decreases kept.len(),
{
    reveal(Seq::filter);
    if kept.len() > 0 {
        lemma_filter_off(kept.drop_last(), c);
        let rest = kept.drop_last().filter(off_connector(c));
        let all = kept.filter(off_connector(c));
        assert forall|i: int| 0 <= i < all.len() implies (#[trigger] all[i]).connector != c by {
            if i < rest.len() {
                assert(all[i] == rest[i]);
            }
        }
    }
}

/// What went last is what an activity showed on the output that went last.
pub proof fn lemma_latest(
    kept: Seq<StripModel>,
    list: Seq<ActivityModel>,
    c: OutputId,
    out: OutputId,
    i: int,
)
    requires
        0 <= i < list.len(),
        list[i].view_of(out) is Some,
        forall|j: int, k: int|
            0 <= j < k < list.len() ==> (#[trigger] list[j]).id != (#[trigger] list[k]).id,
    ensures
        latest(kept + strips_on(list, c, out), list[i].id) == list[i].view_of(out).unwrap().ids,
    decreases list.len(),
{
    let rest = list.drop_last();
    let n = list.len() - 1;
    let s = kept + strips_on(list, c, out);
    if let Some(v) = list.last().view_of(out) {
        assert(s.drop_last() =~= kept + strips_on(rest, c, out));
        assert(s.last().act == list[n].id);
    }
    if i < n {
        assert(list[i].id != list[n].id);
        assert(rest[i] == list[i]);
        assert forall|j: int, k: int| 0 <= j < k < rest.len() implies (#[trigger] rest[j]).id != (
        #[trigger] rest[k]).id by {
            assert(list[j].id != list[k].id);
        }
        lemma_latest(kept, rest, c, out, i);
    }
}

/// The predicate that picks what of `ids` has windows or a name and is routed to `output`.
pub open spec fn belongs_there(
    s: LayoutModel,
    ids: Seq<WorkspaceId>,
    output: Output,
) -> spec_fn(WorkspaceId) -> bool {
    |x: WorkspaceId| ids.contains(x) && s.pool.busy(x) && bound_for(s.pool, x, output)
}

/// Places given to `order` show it; the others keep what they had.
pub proof fn lemma_refilled(ids: Seq<WorkspaceId>, back: Seq<WorkspaceId>, order: Seq<WorkspaceId>)
    requires
        ids.filter(one_of(back)).len() == order.len(),
        forall|k: int| 0 <= k < order.len() ==> back.contains(#[trigger] order[k]),
    ensures
        refilled(ids, back, order).filter(one_of(back)) == order,
        forall|x: WorkspaceId| #[trigger]
            refilled(ids, back, order).contains(x) ==> ids.contains(x) || back.contains(x),
    decreases ids.len(),
{
    reveal(Seq::filter);
    let p = one_of(back);
    if ids.len() > 0 {
        let rest = ids.drop_last();
        let x = ids.last();
        let r = refilled(ids, back, order);
        if back.contains(x) {
            assert(p(x));
            let less = order.drop_last();
            assert forall|k: int| 0 <= k < less.len() implies back.contains(#[trigger] less[k]) by {
                assert(back.contains(order[k]));
            }
            lemma_refilled(rest, back, less);
            let f = refilled(rest, back, less);
            assert(back.contains(order[order.len() - 1]));
            assert(r.drop_last() =~= f);
            assert(r.filter(p) =~= less.push(order.last()));
            assert(r.filter(p) =~= order);
        } else {
            assert(!p(x));
            lemma_refilled(rest, back, order);
            let f = refilled(rest, back, order);
            assert(r.drop_last() =~= f);
        }
        assert forall|y: WorkspaceId| #[trigger] r.contains(y) implies ids.contains(y)
            || back.contains(y) by {
            let k = choose|k: int| 0 <= k < r.len() && r[k] == y;
            let f = r.drop_last();
            if k < f.len() {
                assert(f[k] == y);
                assert(f.contains(y));
                if rest.contains(y) {
                    let j = choose|j: int| 0 <= j < rest.len() && rest[j] == y;
                    assert(ids[j] == y);
                }
            } else if back.contains(x) {
                assert(back.contains(order[order.len() - 1]));
            } else {
                assert(ids[ids.len() - 1] == y);
            }
        }
    }
}

/// Sequences without repetition that hold the same have the same length.
pub proof fn lemma_same_length(a: Seq<WorkspaceId>, b: Seq<WorkspaceId>)
    requires
        a.no_duplicates(),
        b.no_duplicates(),
        forall|x: WorkspaceId| #[trigger] a.contains(x) <==> b.contains(x),
    ensures
        a.len() == b.len(),
{
    a.unique_seq_to_set();
    b.unique_seq_to_set();
    assert(a.to_set() =~= b.to_set());
}

/// What comes back stands in its order in the view that welcomes it.
pub proof fn lemma_welcomed(v: ViewModel, back: Seq<WorkspaceId>, active: Option<WorkspaceId>)
    requires
        back.no_duplicates(),
    ensures
        welcomed(v, back, active).ids.filter(one_of(back)) == back,
        forall|x: WorkspaceId| #[trigger]
            back.contains(x) ==> welcomed(v, back, active).ids.contains(x),
        forall|x: WorkspaceId| #[trigger]
            welcomed(v, back, active).ids.contains(x) ==> v.ids.contains(x) || back.contains(x),
{
    let all = v.ids + back;
    let base = firsts(all);
    let p = one_of(back);
    lemma_firsts(all);
    lemma_filter(base, p);
    assert forall|x: WorkspaceId| #[trigger] back.contains(x) implies base.contains(x) by {
        let k = choose|k: int| 0 <= k < back.len() && back[k] == x;
        assert(all[v.ids.len() + k] == x);
    }
    assert forall|x: WorkspaceId| #[trigger] base.contains(x) implies v.ids.contains(x)
        || back.contains(x) by {
        let k = choose|k: int| 0 <= k < all.len() && all[k] == x;
        if k < v.ids.len() {
            assert(v.ids[k] == x);
        } else {
            assert(back[k - v.ids.len()] == x);
        }
    }
    assert forall|x: WorkspaceId| #[trigger] base.filter(p).contains(x) <==> back.contains(x) by {
        if back.contains(x) {
            assert(p(x));
        }
    }
    lemma_same_length(base.filter(p), back);
    lemma_refilled(base, back, back);
    let w = welcomed(v, back, active).ids;
    lemma_filter(w, p);
    assert forall|x: WorkspaceId| #[trigger] back.contains(x) implies w.contains(x) by {
        assert(w.filter(p).contains(x));
    }
}

/// What comes back, of what is picked, is what is picked of the order.
pub proof fn lemma_returning(
    r: LayoutModel,
    output: Output,
    a: ActivityId,
    order: Seq<WorkspaceId>,
    all: bool,
    q: spec_fn(WorkspaceId) -> bool,
)
    requires
        order.filter(q).no_duplicates(),
        forall|x: WorkspaceId| #[trigger] q(x) ==> comes_back(r.pool, output, a, all)(x),
    ensures
        r.returning(output, a, order, all).filter(q) == order.filter(q),
        r.returning(output, a, order, all).no_duplicates(),
{
    let p = comes_back(r.pool, output, a, all);
    let x0 = order.filter(p);
    lemma_firsts(x0);
    lemma_firsts_filter(x0, q);
    lemma_filter_filter(order, p, q);
    lemma_firsts_same(order.filter(q));
}

/// What an activity shows once what is to come back is back.
pub proof fn lemma_reinstated(
    r: LayoutModel,
    output: Output,
    orders: Seq<Seq<WorkspaceId>>,
    all: bool,
    a: ActivityId,
    q: spec_fn(WorkspaceId) -> bool,
)
    requires
        r.staffed(),
        r.acts.has(a),
        ({
            let order = orders[r.acts.pos(a).unwrap()];
            &&& order.filter(q).no_duplicates()
            &&& order.filter(q).len() > 0
            &&& forall|x: WorkspaceId| #[trigger] q(x) ==> order.contains(x)
        }),
        forall|x: WorkspaceId| #[trigger] q(x) ==> comes_back(r.pool, output, a, all)(x),
    ensures
        ({
            let t = r.reinstate(output, orders, all);
            let order = orders[r.acts.pos(a).unwrap()];
            let entries = t.acts.get(a).unwrap().views;
            &&& t.acts.ids() == r.acts.ids()
            &&& match t.view_of(a, output.id) {
                Some(w) => w.ids.filter(q) == order.filter(q) && (match r.was_active(
                    output.connector,
                    a,
                ) {
                    Some(x) => q(x) ==> w.active == x,
                    None => true,
                }) && forall|x: WorkspaceId| #[trigger] q(x) ==> w.ids.contains(x),
                None => false,
            }
            &&& forall|j: int, x: WorkspaceId|
                0 <= j < entries.len() && entries[j].output != output.id && #[trigger] q(x) ==> !(
                #[trigger] entries[j].view.ids.contains(x))
        }),
{
    let t = r.reinstate(output, orders, all);
    let out = output.id;
    lemma_act(r.acts, a);
    let i = r.acts.pos(a).unwrap();
    let order = orders[i];
    let back = r.returning(output, a, order, all);
    let p = comes_back(r.pool, output, a, all);
    lemma_returning(r, output, a, order, all, q);
    lemma_filter(order, q);
    lemma_filter(back, q);
    lemma_filter(order, p);
    lemma_firsts(order.filter(p));
    let first = order.filter(q)[0];
    assert(order.filter(q).contains(first));
    assert forall|x: WorkspaceId| #[trigger] q(x) implies back.contains(x) by {
        assert(p(x));
        assert(order.filter(p).contains(x));
    }
    assert(back.contains(first));
    assert(back.len() > 0);
    assert(t.acts.ids() =~= r.acts.ids());
    lemma_same_ids(r.acts, t.acts);
    let old = r.acts.list[i];
    let new = t.acts.list[i];
    assert(new == r.reinstated(old, output, order, all));
    assert(t.acts.get(a) == Some(new));
    let active = r.was_active(output.connector, a);
    let views = settled_entries(old.views, out, back, active);
    lemma_find_from(old.views, keyed(out), 0);
    lemma_find_from(new.views, keyed(out), 0);
    lemma_find_from(views, keyed(out), 0);
    assert forall|j: int| 0 <= j < old.views.len() implies (#[trigger] views[j]).output
        == old.views[j].output by {}
    assert forall|j: int, x: WorkspaceId|
        0 <= j < new.views.len() && new.views[j].output != out && #[trigger] q(x) implies !(
    #[trigger] new.views[j].view.ids.contains(x)) by {
        if j < old.views.len() {
            assert(new.views[j] == views[j]);
            assert(views[j] == settled_entry(old.views[j], out, back, active));
            lemma_filter(old.views[j].view.ids, not_among(back));
            assert(back.contains(x));
            assert(!not_among(back)(x));
        }
    }
    if old.view_of(out) is Some {
        assert(new.views == views);
        let k = old.view_pos(out).unwrap();
        assert(keyed(out)(views[k]));
        let f = find(views, keyed(out)).unwrap();
        if f < k {
            assert(!keyed(out)(old.views[f]));
            assert(views[f].output == old.views[f].output);
        } else if k < f {
            assert(!keyed(out)(views[k]));
        }
        assert(f == k);
        let v = old.views[k].view;
        lemma_welcomed(v, back, active);
        let w = welcomed(v, back, active);
        assert(new.view_of(out) == Some(w));
        assert(t.view_of(a, out) == new.view_of(out));
        assert forall|j: int| 0 <= j < w.ids.len() && #[trigger] q(w.ids[j]) implies one_of(back)(
            w.ids[j],
        ) by {}
        lemma_filter_filter(w.ids, one_of(back), q);
    } else {
        let n = views.len() as int;
        assert(keyed(out)(new.views[n]));
        let f = find(new.views, keyed(out)).unwrap();
        if f < n {
            assert(new.views[f] == views[f]);
            assert(views[f].output == old.views[f].output);
            assert(!keyed(out)(old.views[f]));
        }
        assert(f == n);
        assert(t.view_of(a, out) == new.view_of(out));
    }
}

/// What one of several views holds alone is picked from all of them as it is from that one.
pub proof fn lemma_listing(
    views: Seq<EntryModel>,
    k: int,
    q: spec_fn(WorkspaceId) -> bool,
)
    requires
        0 <= k < views.len(),
        forall|j: int, x: WorkspaceId|
            0 <= j < views.len() && j != k && #[trigger] q(x) ==> !(
            #[trigger] views[j].view.ids.contains(x)),
    ensures
        listing(views).filter(q) == views[k].view.ids.filter(q),
    decreases views.len(),
{
    let rest = views.drop_last();
    let n = views.len() - 1;
    let last = views[n].view.ids;
    Seq::filter_distributes_over_add(listing(rest), last, q);
    if k < n {
        assert forall|j: int, x: WorkspaceId|
            0 <= j < rest.len() && j != k && #[trigger] q(x) implies !(
        #[trigger] rest[j].view.ids.contains(x)) by {
            assert(rest[j] == views[j]);
        }
        lemma_listing(rest, k, q);
        assert forall|i: int| 0 <= i < last.len() implies !(#[trigger] q(last[i])) by {
            if q(last[i]) {
                assert(views[n].view.ids.contains(last[i]));
            }
        }
        lemma_filter_none(last, q);
        assert(listing(views).filter(q) =~= views[k].view.ids.filter(q));
    } else {
        lemma_listing_none(rest, q);
        assert forall|j: int, x: WorkspaceId|
            0 <= j < rest.len() && #[trigger] q(x) implies !(
        #[trigger] rest[j].view.ids.contains(x)) by {
            assert(rest[j] == views[j]);
        }
        assert(listing(views).filter(q) =~= views[k].view.ids.filter(q));
    }
}

/// Nothing is picked from views that hold nothing of it.
pub proof fn lemma_listing_none(views: Seq<EntryModel>, q: spec_fn(WorkspaceId) -> bool)
    ensures
        (forall|j: int, x: WorkspaceId|
            0 <= j < views.len() && #[trigger] q(x) ==> !(
            #[trigger] views[j].view.ids.contains(x))) ==> listing(views).filter(q).len() == 0,
    decreases views.len(),
{
    reveal(Seq::filter);
    if views.len() > 0 && (forall|j: int, x: WorkspaceId|
        0 <= j < views.len() && #[trigger] q(x) ==> !(#[trigger] views[j].view.ids.contains(x))) {
        let rest = views.drop_last();
        let n = views.len() - 1;
        let last = views[n].view.ids;
        lemma_listing_none(rest, q);
        assert forall|j: int, x: WorkspaceId|
            0 <= j < rest.len() && #[trigger] q(x) implies !(
        #[trigger] rest[j].view.ids.contains(x)) by {
            assert(rest[j] == views[j]);
        }
        Seq::filter_distributes_over_add(listing(rest), last, q);
        assert forall|i: int| 0 <= i < last.len() implies !(#[trigger] q(last[i])) by {
            if q(last[i]) {
                assert(views[n].view.ids.contains(last[i]));
            }
        }
        lemma_filter_none(last, q);
    }
}

/// While an output is away, what is routed to it stands in the order in which it was shown there.
pub proof fn lemma_stands(s: LayoutModel, idx: int, a: ActivityId)
    requires
        s.whole(),
        0 <= idx < s.monitors.len(),
        s.acts.has(a),
        s.disconnect(idx).fits(),
    ensures
        ({
            let o = s.monitors[idx].output;
            let t = s.disconnect(idx);
            let v = s.view_of(a, o.id).unwrap();
            let q = belongs_there(s, v.ids, o);
            let order = t.standing(t.acts.list[t.acts.pos(a).unwrap()]);
            &&& t.acts.pos(a) == s.acts.pos(a)
            &&& order.filter(q) == v.ids.filter(q)
            &&& forall|x: WorkspaceId| #[trigger] q(x) ==> order.contains(x)
        }),
{
    let o = s.monitors[idx].output;
    let t = s.disconnect(idx);
    lemma_disconnect(s, idx);
    lemma_same_ids(s.acts, t.acts);
    lemma_act(s.acts, a);
    lemma_act(t.acts, a);
    let i = s.acts.pos(a).unwrap();
    assert(s.view_of(s.acts.list[i].id, s.monitors[idx].output.id) is Some);
    let v = s.view_of(a, o.id).unwrap();
    lemma_view_is_ok(s, a, o.id);
    let q = belongs_there(s, v.ids, o);
    let c = t.acts.list[i];
    let order = t.standing(c);
    lemma_filter(v.ids, q);
    if s.monitors.len() == 1 {
        lemma_latest(s.strips.filter(off_connector(o.connector)), s.acts.list, o.connector, o.id, i);
        assert(order == v.ids);
    } else {
        let h = s.refuge_from(idx);
        lemma_home(s, idx, a);
        law_disconnecting_spares_the_rest(s, idx, a, h.id);
        let left = s.left_on(idx, a, h.id);
        let z = t.view_of(a, h.id).unwrap();
        let near = view_core(s.pool, s.view_of(a, h.id));
        let far = view_core(s.pool, s.view_of(a, o.id));
        assert(left == near + far);
        assert forall|x: WorkspaceId| #[trigger] q(x) implies left.contains(x) && t.shows_on(
            a,
            h.id,
            x,
        ) && !near.contains(x) by {
            lemma_core_holds(s, a, o.id, x);
            lemma_core_holds(s, a, h.id, x);
            assert(s.shows_on(a, o.id, x));
            let k = choose|k: int| 0 <= k < far.len() && far[k] == x;
            assert((near + far)[near.len() + k] == x);
            lemma_filter(z.ids, one_of(left));
            assert(z.ids.filter(one_of(left)).contains(x));
        }
        assert(z.ids.filter(q) == v.ids.filter(q)) by {
            lemma_filter_filter(z.ids, one_of(left), q);
            Seq::filter_distributes_over_add(near, far, q);
            assert forall|k: int| 0 <= k < near.len() implies !(#[trigger] q(near[k])) by {
                if q(near[k]) {
                    assert(near.contains(near[k]));
                }
            }
            lemma_filter_none(near, q);
            lemma_filter_filter(v.ids, worth_keeping(s.pool), q);
            assert(left.filter(q) =~= far.filter(q));
        }
        assert(c.id == a);
        let (_, k) = crate::wholeness::lemma_view_entry(t, a, h.id);
        if a != t.acts.active {
            assert(crate::coherence::activity_ok(t.pool, c));
            assert forall|j: int, x: WorkspaceId|
                0 <= j < c.views.len() && j != k && #[trigger] q(x) implies !(
            #[trigger] c.views[j].view.ids.contains(x)) by {
                let b = c.views[j].output;
                lemma_find_from(c.views, keyed(b), 0);
                assert(keyed(b)(c.views[j]));
                let f = find(c.views, keyed(b)).unwrap();
                if f < j {
                    assert(c.views[f].output != c.views[j].output);
                }
                if k < j {
                    assert(c.views[k].output != c.views[j].output);
                } else {
                    assert(c.views[j].output != c.views[k].output);
                }
                assert(t.view_of(a, b) == Some(c.views[j].view));
                if c.views[j].view.ids.contains(x) {
                    assert(t.shows_on(a, b, x));
                    assert(t.shows_on(a, h.id, x));
                }
            }
            lemma_listing(c.views, k, q);
        }
        assert(order.filter(q) == v.ids.filter(q));
        lemma_filter(order, q);
        assert forall|x: WorkspaceId| #[trigger] q(x) implies order.contains(x) by {
            assert(v.ids.filter(q).contains(x));
            assert(order.filter(q).contains(x));
        }
    }
}

/// The output that takes in what was on another one is the primary one from then on.
pub proof fn lemma_home(s: LayoutModel, idx: int, a: ActivityId)
    requires
        s.whole(),
        s.monitors.len() > 1,
        0 <= idx < s.monitors.len(),
        s.acts.has(a),
        s.disconnect(idx).fits(),
    ensures
        s.view_of(a, s.refuge_from(idx).id) is Some,
        s.refuge_from(idx).id != s.monitors[idx].output.id,
        s.disconnect(idx).monitors[s.disconnect(idx).primary].output == s.refuge_from(idx),
{
    let n = s.note_strips(idx);
    let r = n.remove_output(idx);
    let t = s.disconnect(idx);
    crate::resting::lemma_at_rest(s, n);
    crate::mending::lemma_mended_leads(r);
    assert forall|k: int| 0 <= k < n.monitors.len() && k != idx implies apart(
        (#[trigger] n.monitors[k]).output,
        n.monitors[idx].output,
    ) by {
        if k < idx {
            assert(apart(s.monitors[k].output, s.monitors[idx].output));
        } else {
            assert(apart(s.monitors[idx].output, s.monitors[k].output));
        }
    }
    assert(n.stands_alone(idx));
    crate::disconnecting::lemma_unplugged(n, idx);
    crate::disconnecting::lemma_fold(n, idx);
    lemma_disconnect(s, idx);
    let u = n.unplugged(idx);
    assert(u.monitors[u.primary].output == s.refuge_from(idx));
    assert(r.monitors[r.primary].output == u.monitors[u.primary].output);
    let k = if u.primary < idx {
        u.primary
    } else {
        u.primary + 1
    };
    assert(s.monitors.remove(idx)[u.primary] == s.monitors[k]);
    lemma_act(s.acts, a);
    assert(s.view_of(s.acts.list[s.acts.pos(a).unwrap()].id, s.monitors[k].output.id) is Some);
    assert(t.primary == r.primary);
    assert(r.monitors[t.primary].output == t.monitors[t.primary].output);
}

/// What stands in its order while an output is away comes back in it.
pub proof fn lemma_restored(
    s: LayoutModel,
    t: LayoutModel,
    idx: int,
    leading: Option<bool>,
    a: ActivityId,
)
    requires
        s.whole(),
        0 <= idx < s.monitors.len(),
        s.acts.has(a),
        t == s.disconnect(idx),
        t.fits(),
        t.connect(s.monitors[idx].output, leading).fits(),
        ({
            let o = s.monitors[idx].output;
            let r = t.add_output(o, leading);
            let v = s.view_of(a, o.id).unwrap();
            &&& steady(s, r, o)
            &&& lists_once(r.pool)
            &&& r.monitors.len() == t.monitors.len() + 1
            &&& r.monitors[t.monitors.len() as int].output == o
            &&& s.view_of(a, o.id) is Some
            &&& v.ids.filter(belongs_there(s, v.ids, o)).len() > 0
            &&& r.strip_of(o.connector, a) == Some(
                (StripModel { connector: o.connector, act: a, ids: v.ids, active: v.active }),
            )
        }),
    ensures
        ({
            let o = s.monitors[idx].output;
            let v = s.view_of(a, o.id).unwrap();
            let q = belongs_there(s, v.ids, o);
            match t.connect(o, leading).view_of(a, o.id) {
                Some(w) => w.ids.filter(q) == v.ids.filter(q) && (q(v.active) ==> w.active
                    == v.active),
                None => false,
            }
        }),
{
    let o = s.monitors[idx].output;
    let all = t.monitors.len() == 0;
    let r = t.add_output(o, leading);
    let b = r.reinstate(o, t.standings(), all);
    let c = b.forget_strips(o.connector);
    let v = s.view_of(a, o.id).unwrap();
    let q = belongs_there(s, v.ids, o);
    let m = t.monitors.len() as int;
    lemma_stands(s, idx, a);
    lemma_same_ids(s.acts, r.acts);
    lemma_act(t.acts, a);
    let i = s.acts.pos(a).unwrap();
    assert(t.acts.pos(a) == Some(i));
    lemma_act(s.acts, a);
    assert(s.acts.list.len() == s.acts.ids().len());
    assert(r.acts.pos(a) == Some(i));
    lemma_stand_at(s, idx, a);
    lemma_view_is_ok(s, a, o.id);
    lemma_filter(v.ids, q);
    assert forall|x: WorkspaceId| #[trigger] q(x) implies comes_back(r.pool, o, a, all)(x) by {
        assert(s.pool.busy(x));
        assert(s.pool.member(x, a));
    }
    lemma_reinstated(r, o, t.standings(), all, a, q);
    assert(c.acts == b.acts && c.pool == r.pool);
    lemma_steady_acts(r, c, o);
    lemma_find_from(c.monitors, on_output(o.id), 0);
    assert(on_output(o.id)(c.monitors[m]));
    assert forall|x: WorkspaceId| #[trigger] q(x) implies c.pool.member(x, a) by {
        assert(comes_back(r.pool, o, a, all)(x));
    }
    lemma_mended_pick(c, a, o.id, q);
}

/// The standing of an activity is among the standings of all.
pub proof fn lemma_stand_at(s: LayoutModel, idx: int, a: ActivityId)
    requires
        s.whole(),
        0 <= idx < s.monitors.len(),
        s.acts.has(a),
        s.disconnect(idx).fits(),
    ensures
        ({
            let t = s.disconnect(idx);
            let i = s.acts.pos(a).unwrap();
            0 <= i < t.acts.list.len() && t.standings()[i] == t.standing(t.acts.list[i])
        }),
{
    let t = s.disconnect(idx);
    lemma_disconnect(s, idx);
    lemma_same_ids(s.acts, t.acts);
    lemma_act(t.acts, a);
}

/// An output that comes back shows what it showed. Every activity finds there the workspaces with
/// windows or a name that it showed on the output and that are routed to it, in the same order and
/// with the same windows; if the one that was active is among them, it is active again.
pub proof fn law_reconnecting_restores(
    s: LayoutModel,
    idx: int,
    leading: Option<bool>,
    a: ActivityId,
)
    requires
        s.whole(),
        0 <= idx < s.monitors.len(),
        s.acts.has(a),
        s.disconnect(idx).fits(),
        s.disconnect(idx).connect(s.monitors[idx].output, leading).fits(),
    ensures
        ({
            let o = s.monitors[idx].output;
            let u = s.disconnect(idx).connect(o, leading);
            &&& u.whole()
            &&& spares(s.pool, u.pool, o)
            &&& match (s.view_of(a, o.id), u.view_of(a, o.id)) {
                (Some(v), Some(w)) => {
                    let q = belongs_there(s, v.ids, o);
                    &&& w.ids.filter(q) == v.ids.filter(q)
                    &&& q(v.active) ==> w.active == v.active
                },
                _ => false,
            }
        }),
{
    let o = s.monitors[idx].output;
    let t = s.disconnect(idx);
    lemma_disconnect(s, idx);
    assert forall|k: int| 0 <= k < t.monitors.len() implies apart(
        (#[trigger] t.monitors[k]).output,
        o,
    ) by {
        assert(t.monitors[k].output == s.monitors.remove(idx)[k].output);
        if k < idx {
            assert(apart(s.monitors[k].output, s.monitors[idx].output));
        } else {
            assert(apart(s.monitors[idx].output, s.monitors[k + 1].output));
        }
    }
    lemma_connect(t, o, leading);
    let r = t.add_output(o, leading);
    let u = t.connect(o, leading);
    lemma_steady_trans(s, t, r, o);
    lemma_steady_trans(s, t, u, o);
    lemma_act(s.acts, a);
    let i = s.acts.pos(a).unwrap();
    assert(s.view_of(s.acts.list[i].id, s.monitors[idx].output.id) is Some);
    let v = s.view_of(a, o.id).unwrap();
    lemma_view_is_ok(s, a, o.id);
    let q = belongs_there(s, v.ids, o);
    lemma_same_ids(s.acts, u.acts);
    lemma_same_ids(s.acts, r.acts);
    lemma_act(u.acts, a);
    let m = t.monitors.len() as int;
    assert(u.view_of(u.acts.list[u.acts.pos(a).unwrap()].id, u.monitors[m].output.id) is Some);
    let more = strips_on(s.acts.list, o.connector, o.id);
    lemma_strips_on(s.acts.list, o.connector, o.id, i);
    lemma_strip_behind(s.strips, more, o.connector, a);
    assert(r.strip_of(o.connector, a) == Some(
        (StripModel { connector: o.connector, act: a, ids: v.ids, active: v.active }),
    ));
    let w = u.view_of(a, o.id).unwrap();
    lemma_filter(v.ids, q);
    if v.ids.filter(q).len() == 0 {
        assert forall|j: int| 0 <= j < w.ids.len() implies !(#[trigger] q(w.ids[j])) by {
            if q(w.ids[j]) {
                assert(v.ids.filter(q).contains(w.ids[j]));
            }
        }
        lemma_filter_none(w.ids, q);
        assert(v.ids.filter(q) =~= Seq::empty());
        if q(v.active) {
            assert(v.ids.filter(q).contains(v.active));
        }
    } else {
        lemma_restored(s, t, idx, leading, a);
    }
}

} // verus!
