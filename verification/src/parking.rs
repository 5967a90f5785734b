//! Steps that leave what is there as it is.

use vstd::prelude::*;

use crate::cores::{calm, lemma_calm_still, lemma_calm_trans, lemma_normalize_view_calm};
use crate::disconnect::firsts;
use crate::ids::WorkspaceId;
use crate::keeping::{lemma_normalize_acts, lemma_normalize_mons};
use crate::layout::LayoutModel;
use crate::workspace::Output;

verus! {

/// What has no repetitions is its own first occurrences.
pub proof fn lemma_firsts_same(b: Seq<WorkspaceId>)
    requires
        b.no_duplicates(),
    ensures
        firsts(b) == b,
    decreases b.len(),
{
    if b.len() > 0 {
        let rest = b.drop_last();
        assert forall|i: int, j: int|
            0 <= i < rest.len() && 0 <= j < rest.len() && i != j implies rest[i] != rest[j] by {
            assert(b[i] != b[j]);
        }
        lemma_firsts_same(rest);
        assert(!rest.contains(b.last())) by {
            if rest.contains(b.last()) {
                let k = choose|k: int| 0 <= k < rest.len() && rest[k] == b.last();
                assert(b[k] == b[b.len() - 1]);
            }
        }
        assert(rest.push(b.last()) =~= b);
    }
}

/// Putting in missing bookends is calm.
pub proof fn lemma_normalize_acts_calm(s: LayoutModel, mon: int, n: int, o: Output)
    requires
        s.coherent(),
        0 <= mon < s.monitors.len(),
        s.normalize_acts(mon, n).fits(),
    ensures
        calm(s, s.normalize_acts(mon, n), o),
    decreases n,
{
    if n <= 0 {
        lemma_calm_still(s, s, o);
    } else {
        let t = s.normalize_acts(mon, n - 1);
        let act = s.acts.list[n - 1].id;
        crate::bookends::lemma_normalize_acts_leads(s, mon, n - 1, n - 1);
        crate::bookends::lemma_normalize_view_leads(t, mon, act);
        lemma_normalize_acts_calm(s, mon, n - 1, o);
        lemma_normalize_acts(s, mon, n - 1);
        lemma_normalize_view_calm(t, mon, act, o);
        lemma_calm_trans(s, t, s.normalize_acts(mon, n), o);
    }
}

/// Putting in missing bookends is calm.
pub proof fn lemma_normalize_mons_calm(s: LayoutModel, n: int, o: Output)
    requires
        s.coherent(),
        n <= s.monitors.len(),
        s.normalize_mons(n).fits(),
    ensures
        calm(s, s.normalize_mons(n), o),
    decreases n,
{
    if n <= 0 {
        lemma_calm_still(s, s, o);
    } else {
        let t = s.normalize_mons(n - 1);
        let k = s.acts.list.len() as int;
        crate::bookends::lemma_normalize_mons_leads(s, n - 1, n - 1);
        crate::bookends::lemma_normalize_acts_leads(t, n - 1, k, k);
        lemma_normalize_mons_calm(s, n - 1, o);
        lemma_normalize_mons(s, n - 1);
        lemma_normalize_acts_calm(t, n - 1, k, o);
        lemma_calm_trans(s, t, s.normalize_mons(n), o);
    }
}

} // verus!
