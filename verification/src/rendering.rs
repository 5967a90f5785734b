//! What has to be drawn anew.

use vstd::prelude::*;

use crate::ids::{OutputId, WindowId, WorkspaceId};
use crate::layout::{InteractiveMoveState, Layout, LayoutModel};

verus! {

/// A monitor that has to be drawn anew.
#[derive(Clone, Copy, Debug, PartialEq, Eq, Structural)]
pub struct Drawn {
    /// Its index.
    pub monitor: usize,
    /// Whether it is drawn as the focused one.
    pub is_active: bool,
}

/// What has to be drawn anew.
#[derive(Clone, Debug, PartialEq, Eq)]
pub struct RenderUpdate {
    /// The dragged window.
    pub dragged: Option<WindowId>,
    /// The monitors.
    pub monitors: Vec<Drawn>,
    /// The workspaces that slide out while activities are being switched, none of them focused.
    pub outgoing: Vec<WorkspaceId>,
}

/// Whether `out` is among the outputs meant by `which`, which is one of them or all.
pub open spec fn meant(which: Option<OutputId>, out: OutputId) -> bool {
    which is None || which == Some(out)
}

/// Whether `out` is among the outputs meant by `which`.
fn is_meant(which: Option<OutputId>, out: OutputId) -> (b: bool)
    ensures
        b == meant(which, out),
{
    match which {
        Some(w) => w == out,
        None => true,
    }
}

impl LayoutModel {
    /// The window that is dragged over the outputs meant by `which`.
    pub open spec fn dragged_over(self, which: Option<OutputId>) -> Option<WindowId> {
        match self.moving {
            Some(InteractiveMoveState::Moving(d)) => if meant(which, d.output.id) {
                Some(d.tile.window.id)
            } else {
                None
            },
            _ => None,
        }
    }

    /// Whether monitor `m` is drawn as the focused one: it is while the compositor has the focus
    /// and no window is dragged.
    pub open spec fn looks_focused(self, m: int) -> bool {
        self.is_active && m == self.focused && !(self.moving matches Some(
            InteractiveMoveState::Moving(_),
        ))
    }

    /// Of the first `n` monitors, those meant by `which`.
    pub open spec fn drawn(self, which: Option<OutputId>, n: int) -> Seq<Drawn>
        decreases n,
    {
        if n <= 0 {
            Seq::empty()
        } else {
            let before = self.drawn(which, n - 1);
            if meant(which, self.monitors[n - 1].output.id) {
                before.push(
                    Drawn { monitor: (n - 1) as usize, is_active: self.looks_focused(n - 1) },
                )
            } else {
                before
            }
        }
    }

    /// What slides out of monitor `m` while activities are being switched.
    pub open spec fn outgoing_ids(self, m: int) -> Seq<WorkspaceId> {
        match self.monitors[m].activity_switch {
            Some(s) => match self.view_of(s.from, self.monitors[m].output.id) {
                Some(v) => v.ids,
                None => Seq::empty(),
            },
            None => Seq::empty(),
        }
    }

    /// What slides out of those of the first `n` monitors that are meant by `which`.
    pub open spec fn slid_out(self, which: Option<OutputId>, n: int) -> Seq<WorkspaceId>
        decreases n,
    {
        if n <= 0 {
            Seq::empty()
        } else if meant(which, self.monitors[n - 1].output.id) {
            self.slid_out(which, n - 1) + self.outgoing_ids(n - 1)
        } else {
            self.slid_out(which, n - 1)
        }
    }
}

impl Layout {
    /// The window that is dragged over output `output`, and so lies under the pointer there.
    pub fn interactive_moved_window(&self, output: OutputId) -> (w: Option<WindowId>)
        ensures
            w == self@.dragged_over(Some(output)),
    {
        match self.interactive_move {
            Some(InteractiveMoveState::Moving(d)) => if d.output.id == output {
                Some(d.tile.window.id)
            } else {
                None
            },
            _ => None,
        }
    }

    /// What has to be drawn anew on output `output`, or on all of them.
    pub fn update_render_elements(&self, output: Option<OutputId>) -> (r: RenderUpdate)
        ensures
            r.dragged == self@.dragged_over(output),
            r.monitors@ == self@.drawn(output, self@.monitors.len() as int),
            r.outgoing@ == self@.slid_out(output, self@.monitors.len() as int),
    {
        let mut dragged: Option<WindowId> = None;
        let mut dragging: bool = false;
        if let Some(InteractiveMoveState::Moving(d)) = self.interactive_move {
            dragging = true;
            if is_meant(output, d.output.id) {
                dragged = Some(d.tile.window.id);
            }
        }
        let mut monitors: Vec<Drawn> = Vec::new();
        let mut outgoing: Vec<WorkspaceId> = Vec::new();
        let mut i: usize = 0;
        while i < self.monitors.len()
            invariant
                i <= self.monitors@.len(),
                dragging == (self@.moving matches Some(InteractiveMoveState::Moving(_))),
                monitors@ == self@.drawn(output, i as int),
                outgoing@ == self@.slid_out(output, i as int),
            decreases self.monitors@.len() - i,
        {
            if is_meant(output, self.monitors[i].output.id) {
                let focused = i == self.active_monitor_idx;
                monitors.push(
                    Drawn { monitor: i, is_active: self.is_active && focused && !dragging },
                );
                self.slide_out(i, &mut outgoing);
            }
            i = i + 1;
        }
        RenderUpdate { dragged, monitors, outgoing }
    }

    /// Lists what slides out of monitor `mon` while activities are being switched.
    fn slide_out(&self, mon: usize, r: &mut Vec<WorkspaceId>)
        requires
            mon < self@.monitors.len(),
        ensures
            final(r)@ == old(r)@ + self@.outgoing_ids(mon as int),
    {
        let ghost first = r@;
        match self.outgoing_ctx_for(mon) {
            Some(v) => {
                let ids = v.ids();
                let mut i: usize = 0;
                assert(first + ids@.take(0) =~= first);
                while i < ids.len()
                    invariant
                        i <= ids@.len(),
                        r@ == first + ids@.take(i as int),
                    decreases ids@.len() - i,
                {
                    r.push(ids[i]);
                    i = i + 1;
                    assert(r@ =~= first + ids@.take(i as int));
                }
                assert(ids@.take(i as int) =~= ids@);
            },
            None => {
                assert(first + Seq::<WorkspaceId>::empty() =~= first);
            },
        }
    }
}

} // verus!
