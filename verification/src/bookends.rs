//! Bookends: every view ends with an empty unnamed workspace and, where the output asks for it,
//! begins with one.

use vstd::prelude::*;

use crate::ids::{ActivityId, OutputId};
use crate::layout::{Layout, LayoutModel};
use crate::view::ViewModel;

verus! {

impl LayoutModel {
    /// The same monitors and activities, in the same order, with counters that only went up; what
    /// has nothing to do with workspaces and views is the same.
    pub open spec fn leads_to(self, later: LayoutModel) -> bool {
        &&& self.before(later)
        &&& self.monitors.len() == later.monitors.len()
        &&& forall|i: int|
            0 <= i < self.monitors.len() ==> (#[trigger] self.monitors[i]).output
                == later.monitors[i].output && self.monitors[i].empty_workspace_above_first
                == later.monitors[i].empty_workspace_above_first && self.monitors[i].overview_open
                == later.monitors[i].overview_open && self.monitors[i].activity_switch
                == later.monitors[i].activity_switch
        &&& self.acts.ids() == later.acts.ids()
        &&& self.acts.active == later.acts.active
        &&& self.acts.previous == later.acts.previous
        &&& self.primary == later.primary
        &&& self.focused == later.focused
        &&& self.options == later.options
        &&& self.parked == later.parked
        &&& self.remembered == later.remembered
        &&& self.strips == later.strips
        &&& self.moving == later.moving
        &&& self.dnd == later.dnd
        &&& self.overview_open == later.overview_open
        &&& self.progress == later.progress
        &&& self.is_active == later.is_active
        &&& self.bookmarks == later.bookmarks
    }

    /// A new empty workspace put in at `pos` of activity `act`'s view of monitor `mon`.
    pub open spec fn mint_into(self, mon: int, act: ActivityId, pos: int) -> LayoutModel {
        let m = self.monitors[mon];
        let out = m.output.id;
        match self.view_of(act, out) {
            Some(v) => LayoutModel {
                pool: self.pool.mint(out, act),
                acts: self.acts.set_view(act, out, v.insert(pos, self.pool.next_id())),
                monitors: if act == self.acts.active {
                    self.monitors.update(mon, m.shifted(pos))
                } else {
                    self.monitors
                },
                ..self
            },
            None => self,
        }
    }

    /// A new empty workspace put in at `idx` of the active view of monitor `mon`.
    pub open spec fn add_workspace_at(self, mon: int, idx: int) -> LayoutModel {
        self.mint_into(mon, self.acts.active, idx)
    }

    /// A new empty workspace put in above all others.
    pub open spec fn add_workspace_top(self, mon: int) -> LayoutModel {
        self.add_workspace_at(mon, 0)
    }

    /// A new empty workspace put in below all others.
    pub open spec fn add_workspace_bottom(self, mon: int) -> LayoutModel {
        match self.active_view(self.monitors[mon].output.id) {
            Some(v) => self.add_workspace_at(mon, v.ids.len() as int),
            None => self,
        }
    }

    /// Activity `act`'s view of monitor `mon` with its missing bookends put in.
    pub open spec fn normalize_view(self, mon: int, act: ActivityId) -> LayoutModel {
        let m = self.monitors[mon];
        match self.view_of(act, m.output.id) {
            Some(v) => if v.ids.len() == 0 {
                self
            } else {
                let lower = if self.pool.busy(v.ids.last()) {
                    self.mint_into(mon, act, v.ids.len() as int)
                } else {
                    self
                };
                if m.empty_workspace_above_first && self.pool.busy(v.ids[0]) {
                    lower.mint_into(mon, act, 0)
                } else {
                    lower
                }
            },
            None => self,
        }
    }

    /// The first `n` activities' views of monitor `mon` with their missing bookends put in.
    pub open spec fn normalize_acts(self, mon: int, n: int) -> LayoutModel
        decreases n,
    {
        if n <= 0 {
            self
        } else {
            self.normalize_acts(mon, n - 1).normalize_view(mon, self.acts.list[n - 1].id)
        }
    }

    /// Every view of the first `n` monitors with its missing bookends put in.
    pub open spec fn normalize_mons(self, n: int) -> LayoutModel
        decreases n,
    {
        if n <= 0 {
            self
        } else {
            self.normalize_mons(n - 1).normalize_acts(n - 1, self.acts.list.len() as int)
        }
    }

    /// Every view of every connected output with its missing bookends put in.
    pub open spec fn normalize(self) -> LayoutModel {
        self.normalize_mons(self.monitors.len() as int)
    }
}

/// Replacing a view changes neither which activities there are nor their order.
pub proof fn lemma_set_view_ids(s: crate::activity::ActivitiesModel, act: ActivityId, out: OutputId, v: ViewModel)
    ensures
        s.set_view(act, out, v).ids() == s.ids(),
{
    crate::search::lemma_find_from(s.list, crate::activity::named(act), 0);
    assert(s.set_view(act, out, v).ids() =~= s.ids());
}

/// Minting keeps the frame.
pub broadcast proof fn lemma_mint_into_leads(s: LayoutModel, mon: int, act: ActivityId, pos: int)
    requires
        0 <= mon < s.monitors.len(),
    ensures
        s.leads_to(#[trigger] s.mint_into(mon, act, pos)),
{
    let out = s.monitors[mon].output.id;
    if let Some(v) = s.view_of(act, out) {
        lemma_set_view_ids(s.acts, act, out, v.insert(pos, s.pool.next_id()));
    }
}

/// Completing one view keeps the frame.
pub broadcast proof fn lemma_normalize_view_leads(s: LayoutModel, mon: int, act: ActivityId)
    requires
        0 <= mon < s.monitors.len(),
    ensures
        s.leads_to(#[trigger] s.normalize_view(mon, act)),
{
    broadcast use lemma_mint_into_leads;
}

/// Completing more views keeps the frame.
pub proof fn lemma_normalize_acts_leads(s: LayoutModel, mon: int, k: int, n: int)
    requires
        0 <= mon < s.monitors.len(),
        0 <= k <= n,
    ensures
        s.leads_to(s.normalize_acts(mon, n)),
        s.normalize_acts(mon, k).leads_to(s.normalize_acts(mon, n)),
    decreases n,
{
    broadcast use lemma_normalize_view_leads;

    if n > 0 {
        lemma_normalize_acts_leads(s, mon, if k < n { k } else { n - 1 }, n - 1);
    }
}

/// Completing the views of more monitors keeps the frame.
pub proof fn lemma_normalize_mons_leads(s: LayoutModel, k: int, n: int)
    requires
        0 <= k <= n <= s.monitors.len(),
    ensures
        s.leads_to(s.normalize_mons(n)),
        s.normalize_mons(k).leads_to(s.normalize_mons(n)),
    decreases n,
{
    if n > 0 {
        lemma_normalize_mons_leads(s, if k < n { k } else { n - 1 }, n - 1);
        lemma_normalize_acts_leads(
            s.normalize_mons(n - 1),
            n - 1,
            0,
            s.acts.list.len() as int,
        );
    }
}

/// Completing every view keeps the frame.
pub broadcast proof fn lemma_normalize_leads(s: LayoutModel)
    ensures
        s.leads_to(#[trigger] s.normalize()),
{
    lemma_normalize_mons_leads(s, 0, s.monitors.len() as int);
}

impl Layout {
    /// Puts a new empty workspace in at `pos` of activity `act`'s view of monitor `mon_idx`.
    /// Where that view is the one on screen, a workspace switch under way is carried along.
    pub(crate) fn mint_into(&mut self, mon_idx: usize, act: ActivityId, pos: usize)
        requires
            mon_idx < old(self)@.monitors.len(),
            old(self)@.mint_into(mon_idx as int, act, pos as int).fits(),
            match old(self)@.view_of(act, old(self)@.monitors[mon_idx as int].output.id) {
                Some(v) => pos <= v.ids.len(),
                None => true,
            },
        ensures
            final(self)@ == old(self)@.mint_into(mon_idx as int, act, pos as int),
    {
        let out = self.monitors[mon_idx].output.id;
        if let Some(mut v) = self.copy_view(act, out) {
            let id = self.workspaces.mint(out, act);
            v.insert(pos, id);
            self.activities.set_view(act, out, v);
            if act == self.activities.active {
                self.monitors[mon_idx].shift(pos);
            }
        }
    }

    /// Puts a new empty workspace in at `idx` of the active view of monitor `mon_idx`.
    pub(crate) fn add_workspace_at_on(&mut self, mon_idx: usize, idx: usize)
        requires
            mon_idx < old(self)@.monitors.len(),
            old(self)@.add_workspace_at(mon_idx as int, idx as int).fits(),
            match old(self)@.active_view(old(self)@.monitors[mon_idx as int].output.id) {
                Some(v) => idx <= v.ids.len(),
                None => true,
            },
        ensures
            final(self)@ == old(self)@.add_workspace_at(mon_idx as int, idx as int),
    {
        let act = self.activities.active;
        self.mint_into(mon_idx, act, idx);
    }

    /// Puts a new empty workspace in above all others of the active view.
    pub(crate) fn add_workspace_top_on(&mut self, mon_idx: usize)
        requires
            mon_idx < old(self)@.monitors.len(),
            old(self)@.add_workspace_top(mon_idx as int).fits(),
        ensures
            final(self)@ == old(self)@.add_workspace_top(mon_idx as int),
    {
        self.add_workspace_at_on(mon_idx, 0);
    }

    /// Puts a new empty workspace in below all others of the active view.
    pub(crate) fn add_workspace_bottom_on(&mut self, mon_idx: usize)
        requires
            mon_idx < old(self)@.monitors.len(),
            old(self)@.add_workspace_bottom(mon_idx as int).fits(),
        ensures
            final(self)@ == old(self)@.add_workspace_bottom(mon_idx as int),
    {
        let len: Option<usize> = match self.activities.view_on(
            self.activities.active,
            self.monitors[mon_idx].output.id,
        ) {
            Some(v) => Some(v.len()),
            None => None,
        };
        if let Some(n) = len {
            self.add_workspace_at_on(mon_idx, n);
        }
    }

    /// Puts the missing bookends into activity `act`'s view of monitor `mon_idx`.
    fn normalize_view(&mut self, mon_idx: usize, act: ActivityId)
        requires
            mon_idx < old(self)@.monitors.len(),
            old(self)@.normalize_view(mon_idx as int, act).fits(),
        ensures
            final(self)@ == old(self)@.normalize_view(mon_idx as int, act),
    {
        broadcast use lemma_mint_into_leads;

        let out = self.monitors[mon_idx].output.id;
        let ewaf = self.monitors[mon_idx].empty_workspace_above_first;
        if let Some(v) = self.copy_view(act, out) {
            let n: usize = v.len();
            if n == 0 {
                return;
            }
            let trailing = self.workspaces.is_busy(v.id_at(n - 1));
            let leading = ewaf && self.workspaces.is_busy(v.id_at(0));
            if trailing {
                self.mint_into(mon_idx, act, n);
            }
            if leading {
                self.mint_into(mon_idx, act, 0);
            }
        }
    }

    /// Puts the missing bookends into every activity's view of every connected output and says
    /// how many workspaces that took. Nothing is removed, renamed or reassigned.
    pub fn normalize_view_bookends(&mut self) -> (minted: u64)
        requires
            old(self)@.normalize().fits(),
        ensures
            final(self)@ == old(self)@.normalize(),
            minted == final(self)@.pool.next - old(self)@.pool.next,
            old(self)@.coherent() && old(self)@.monitors_differ() ==> minted == old(
                self,
            )@.bookends_lacking(),
            old(self)@.whole() ==> final(self)@.whole(),
            old(self)@.whole() && old(self)@.orderly() ==> final(self)@.orderly(),
    {
        proof {
            if self@.coherent() && self@.monitors_differ() {
                crate::settling::law_bookends_only_add(self@);
            }
            if self@.whole() {
                crate::promises::lemma_normalize_mons_idle(self@, self@.monitors.len() as int);
            }
        }
        let ghost start = self@;
        let before: u64 = self.workspaces.next_id;
        let n: usize = self.monitors.len();
        let ids = self.activities.ids();
        let mut m: usize = 0;
        while m < n
            invariant
                m <= n,
                n == start.monitors.len(),
                ids@ == start.acts.ids(),
                self@ == start.normalize_mons(m as int),
                start.leads_to(self@),
                start.normalize().fits(),
            decreases n - m,
        {
            let ghost here = self@;
            proof {
                lemma_normalize_mons_leads(start, m + 1, n as int);
            }
            let mut a: usize = 0;
            while a < ids.len()
                invariant
                    m < n,
                    n == start.monitors.len(),
                    a <= ids@.len(),
                    ids@ == start.acts.ids(),
                    start.leads_to(here),
                    here == start.normalize_mons(m as int),
                    self@ == here.normalize_acts(m as int, a as int),
                    here.leads_to(self@),
                    start.normalize_mons(m + 1).fits(),
                decreases ids@.len() - a,
            {
                proof {
                    lemma_normalize_acts_leads(here, m as int, a + 1, ids@.len() as int);
                    assert(here.acts.ids()[a as int] == here.acts.list[a as int].id);
                }
                self.normalize_view(m, ids[a]);
                a = a + 1;
            }
            proof {
                assert(here.acts.ids().len() == start.acts.ids().len());
                assert(self@ == start.normalize_mons(m + 1));
                lemma_normalize_mons_leads(start, 0, m + 1);
            }
            m = m + 1;
        }
        self.workspaces.next_id - before
    }
}

} // verus!
