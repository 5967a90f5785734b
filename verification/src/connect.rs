//! Connecting an output beside others.

use vstd::prelude::*;

use crate::ids::WorkspaceId;
use crate::layout::{Layout, LayoutModel};
use crate::monitor::Monitor;
use crate::pool::{PoolModel, WorkspacePool};
use crate::view::{ViewModel, WorkspaceView};
use crate::workspace::Output;

verus! {

/// Whether workspace `id` is routed to `output`.
pub open spec fn bound_for(pool: PoolModel, id: WorkspaceId, output: Output) -> bool {
    match pool.get(id) {
        Some(w) => match w.output_id {
            Some(o) => o.designates(output),
            None => false,
        },
        None => false,
    }
}

/// The predicate that picks the workspaces that are routed to `output`.
pub open spec fn leaving(pool: PoolModel, output: Output) -> spec_fn(WorkspaceId) -> bool {
    |id: WorkspaceId| bound_for(pool, id, output)
}

/// The predicate that picks the workspaces that move over to `output`.
pub open spec fn coming_along(pool: PoolModel, output: Output) -> spec_fn(WorkspaceId) -> bool {
    |id: WorkspaceId| bound_for(pool, id, output) && pool.busy(id)
}

/// The predicate that picks the empty workspaces that are routed to `output`.
pub open spec fn left_behind(pool: PoolModel, output: Output) -> spec_fn(WorkspaceId) -> bool {
    |id: WorkspaceId| bound_for(pool, id, output) && !pool.busy(id)
}

/// View `v` without its entry at `i`. Under a leading empty workspace, a focus right below it
/// stays right below it.
pub open spec fn peeled(v: ViewModel, i: int, leading: bool) -> ViewModel {
    let w = v.remove_at(i);
    if leading && v.active_position() == 1 && i <= 1 {
        w.set_active_at(if w.ids.len() > 1 {
            1
        } else {
            0
        })
    } else {
        w
    }
}

/// View `v` with those of its first `n` entries taken out, from the last one up, that are routed
/// to `output`. The last workspace left stays.
pub open spec fn peel(pool: PoolModel, v: ViewModel, output: Output, leading: bool, n: int) -> ViewModel
    decreases n,
{
    if n <= 0 {
        v
    } else if n <= v.ids.len() && bound_for(pool, v.ids[n - 1], output) && v.ids.len() > 1 {
        peel(pool, peeled(v, n - 1, leading), output, leading, n - 1)
    } else {
        peel(pool, v, output, leading, n - 1)
    }
}

impl LayoutModel {
    /// The primary monitor without the workspaces that are routed to `output`.
    pub open spec fn peel_primary(self, output: Output) -> LayoutModel {
        let p = self.monitors[self.primary];
        let out = p.output.id;
        let leading = p.empty_workspace_above_first;
        match self.active_view(out) {
            Some(v) => {
                let w = peel(self.pool, v, output, leading, v.ids.len() as int);
                let going = v.ids.filter(leaving(self.pool, output));
                let stopped = going.len() > 0 && p.workspace_switch is Some;
                let s1 = LayoutModel { pool: self.pool.unbind_all(going), ..self };
                let s2 = s1.with_view(self.acts.active, out, w);
                let s3 = if stopped {
                    s2.settle(self.primary)
                } else {
                    s2
                };
                if stopped || (leading && w.ids.len() == 2) {
                    s3.clean_up(self.primary)
                } else {
                    s3
                }
            },
            None => self,
        }
    }

    /// One more output connected.
    pub open spec fn add_further_output(self, m: Monitor) -> LayoutModel {
        let output = m.output;
        let remembered = crate::outputs::recalled(self.remembered, output.connector);
        let shown = match self.active_view(self.monitors[self.primary].output.id) {
            Some(v) => v.ids,
            None => Seq::empty(),
        };
        let body = shown.filter(coming_along(self.pool, output));
        let doomed = shown.filter(left_behind(self.pool, output));
        self.peel_primary(output).forget(output.connector).open_monitor(
            m,
            body,
            remembered,
        ).destroy_all(doomed).ensure_all()
    }

    /// An output connected. `leading` says whether its views begin with an empty workspace, where
    /// that differs from the layout as a whole.
    pub open spec fn add_output(self, output: Output, leading: Option<bool>) -> LayoutModel {
        let m = Monitor {
            output,
            empty_workspace_above_first: match leading {
                Some(b) => b,
                None => self.options.empty_workspace_above_first,
            },
            workspace_switch: None,
            activity_switch: None,
            overview_open: self.overview_open,
            dnd_scroll: false,
        };
        if self.monitors.len() == 0 {
            self.add_first_output(m)
        } else {
            self.add_further_output(m)
        }
    }
}

impl LayoutModel {
    /// `output` connected for good: what is routed there is shown there in the order in which it
    /// stands, and the layout is whole.
    pub open spec fn connect(self, output: Output, leading: Option<bool>) -> LayoutModel {
        self.add_output(output, leading).reinstate(
            output,
            self.standings(),
            self.monitors.len() == 0,
        ).forget_strips(output.connector).mended()
    }
}

/// Unbinding workspaces hands out no ids.
pub proof fn lemma_unbind_all_next(p: PoolModel, ids: Seq<WorkspaceId>)
    ensures
        p.unbind_all(ids).next == p.next,
    decreases ids.len(),
{
    if ids.len() > 0 {
        lemma_unbind_all_next(p, ids.drop_last());
    }
}

/// Peeling workspaces off the primary monitor keeps the frame.
pub broadcast proof fn lemma_peel_primary_leads(s: LayoutModel, output: Output)
    requires
        0 <= s.primary < s.monitors.len(),
    ensures
        s.leads_to(#[trigger] s.peel_primary(output)),
{
    broadcast use {
        crate::reclaim::lemma_clean_up_leads,
        crate::reclaim::lemma_with_view_leads,
    };

    let p = s.monitors[s.primary];
    let out = p.output.id;
    let leading = p.empty_workspace_above_first;
    if let Some(v) = s.active_view(out) {
        let w = peel(s.pool, v, output, leading, v.ids.len() as int);
        let going = v.ids.filter(leaving(s.pool, output));
        let s1 = LayoutModel { pool: s.pool.unbind_all(going), ..s };
        lemma_unbind_all_next(s.pool, going);
        let s2 = s1.with_view(s.acts.active, out, w);
        assert(s.leads_to(s2));
        let s3 = s2.settle(s.primary);
        assert(s2.leads_to(s3));
        assert(s2.leads_to(s2.clean_up(s.primary)));
        assert(s3.leads_to(s3.clean_up(s.primary)));
    }
}

impl WorkspacePool {
    /// Whether workspace `id` is routed to `output`.
    pub(crate) fn is_bound_for(&self, id: WorkspaceId, output: &Output) -> (b: bool)
        ensures
            b == bound_for(self@, id, *output),
    {
        match self.get(id) {
            Some(w) => match &w.output_id {
                Some(o) => o.matches(output),
                None => false,
            },
            None => false,
        }
    }
}

/// The workspaces of `ids` that are routed to `output`: all of them, those with windows or a name,
/// and the rest.
fn partition_routed(pool: &WorkspacePool, ids: &Vec<WorkspaceId>, output: &Output) -> (r: (
    Vec<WorkspaceId>,
    Vec<WorkspaceId>,
    Vec<WorkspaceId>,
))
    ensures
        r.0@ == ids@.filter(leaving(pool@, *output)),
        r.1@ == ids@.filter(coming_along(pool@, *output)),
        r.2@ == ids@.filter(left_behind(pool@, *output)),
{
    let mut going: Vec<WorkspaceId> = Vec::new();
    let mut body: Vec<WorkspaceId> = Vec::new();
    let mut doomed: Vec<WorkspaceId> = Vec::new();
    let mut i: usize = 0;
    while i < ids.len()
        invariant
            i <= ids@.len(),
            going@ == ids@.take(i as int).filter(leaving(pool@, *output)),
            body@ == ids@.take(i as int).filter(coming_along(pool@, *output)),
            doomed@ == ids@.take(i as int).filter(left_behind(pool@, *output)),
        decreases ids@.len() - i,
    {
        let id = ids[i];
        proof {
            assert(ids@.take(i + 1).drop_last() =~= ids@.take(i as int));
            assert(ids@.take(i + 1).last() == id);
            reveal(Seq::filter);
        }
        if pool.is_bound_for(id, output) {
            going.push(id);
            if pool.is_busy(id) {
                body.push(id);
            } else {
                doomed.push(id);
            }
        }
        i = i + 1;
    }
    assert(ids@.take(i as int) =~= ids@);
    (going, body, doomed)
}

impl WorkspaceView {
    /// Takes out the entries that are routed to `output`, from the last one up.
    fn peel(&mut self, pool: &WorkspacePool, output: &Output, leading: bool)
        ensures
            final(self)@ == peel(
                pool@,
                old(self)@,
                *output,
                leading,
                old(self)@.ids.len() as int,
            ),
    {
        let ghost all = peel(pool@, self@, *output, leading, self@.ids.len() as int);
        let mut n: usize = self.len();
        while n > 0
            invariant
                n <= self@.ids.len(),
                all == peel(pool@, self@, *output, leading, n as int),
            decreases n,
        {
            let i: usize = n - 1;
            if pool.is_bound_for(self.id_at(i), output) && self.len() > 1 {
                let pinned = leading && self.active_position() == 1 && i <= 1;
                let _gone = self.remove_at(i);
                if pinned {
                    let at: usize = if self.len() > 1 {
                        1
                    } else {
                        0
                    };
                    self.set_active_at(at);
                }
            }
            n = i;
        }
    }
}

impl Layout {
    /// Takes the workspaces that are routed to `output` off the primary monitor. Returns those
    /// that move over and those that are to be destroyed.
    fn peel_primary(&mut self, output: &Output) -> (r: (Vec<WorkspaceId>, Vec<WorkspaceId>))
        requires
            old(self)@.primary < old(self)@.monitors.len(),
        ensures
            final(self)@ == old(self)@.peel_primary(*output),
            match old(self)@.active_view(old(self)@.monitors[old(self)@.primary].output.id) {
                Some(v) => r.0@ == v.ids.filter(coming_along(old(self)@.pool, *output)) && r.1@
                    == v.ids.filter(left_behind(old(self)@.pool, *output)),
                None => r.0@.len() == 0 && r.1@.len() == 0,
            },
    {
        let primary: usize = self.primary_idx;
        let out = self.monitors[primary].output.id;
        let leading = self.monitors[primary].empty_workspace_above_first;
        let act = self.activities.active;
        match self.copy_view(act, out) {
            Some(mut v) => {
                let (going, body, doomed) = partition_routed(&self.workspaces, v.ids(), output);
                v.peel(&self.workspaces, output, leading);
                let len: usize = v.len();
                let stopped = going.len() > 0 && self.monitors[primary].workspace_switch.is_some();
                self.workspaces.unbind_all(&going);
                self.put_view(act, out, v);
                if stopped {
                    self.monitors[primary].workspace_switch = None;
                }
                if stopped || (leading && len == 2) {
                    self.clean_up_workspaces_on(primary);
                }
                (body, doomed)
            },
            None => (Vec::new(), Vec::new()),
        }
    }

    /// Connects one more output. The workspaces routed to it come over from the primary monitor.
    fn add_further_output(&mut self, m: Monitor)
        requires
            old(self)@.primary < old(self)@.monitors.len(),
            old(self)@.add_further_output(m).fits(),
        ensures
            final(self)@ == old(self)@.add_further_output(m),
    {
        let ghost start = self@;
        let (body, doomed) = self.peel_primary(&m.output);
        let remembered = self.recall(m.output.connector);
        proof {
            lemma_peel_primary_leads(start, m.output);
            let shown = match start.active_view(start.monitors[start.primary].output.id) {
                Some(v) => v.ids,
                None => Seq::empty(),
            };
            reveal(Seq::filter);
            assert(body@ =~= shown.filter(coming_along(start.pool, m.output)));
            assert(doomed@ =~= shown.filter(left_behind(start.pool, m.output)));
            let s1 = self@.open_monitor(m, body@, remembered);
            crate::outputs::lemma_open_monitor_before(self@, m, body@, remembered);
            crate::reclaim::lemma_destroy_all_leads(s1, doomed@);
            crate::materialize::lemma_ensure_all_leads(s1.destroy_all(doomed@));
        }
        self.open_monitor(m, body, remembered);
        self.destroy_workspaces_cross_activity(&doomed);
        self.ensure_all_activity_views();
    }

    /// Connects `output`. `leading` says whether its views begin with an empty workspace, where
    /// that differs from the layout as a whole.
    ///
    /// The workspaces that are routed to the output move to it. Every activity gets a view of it.
    pub(crate) fn do_add_output(&mut self, output: Output, leading: Option<bool>)
        requires
            old(self)@.monitors.len() > 0 ==> old(self)@.primary < old(self)@.monitors.len(),
            old(self)@.add_output(output, leading).fits(),
        ensures
            final(self)@ == old(self)@.add_output(output, leading),
    {
        let ewaf = match leading {
            Some(b) => b,
            None => self.options.empty_workspace_above_first,
        };
        let m = Monitor::new(output, ewaf, self.overview_open);
        if self.monitors.len() == 0 {
            self.add_first_output(m);
        } else {
            self.add_further_output(m);
        }
    }
}

} // verus!
