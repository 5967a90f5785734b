//! What users of the layout do to it. Every operation does its work and then mends whatever that
//! left undone: a layout that was whole is whole again.

use vstd::prelude::*;

use crate::agreeing::free_to_switch;
use crate::abiding;
use crate::arrange::reference_model;
use crate::belonging::lemma_distinct;
use crate::changing::lists_once;
use crate::config::{decl_models, texts, WorkspaceDecl};
use crate::cores::apart;
use crate::errors::{
    AddWorkspaceToActivityError, CreateActivityError, MoveWorkspaceToActivityError,
    RemoveActivityError, RemoveWorkspaceFromActivityError, RenameActivityError,
    SetWorkspaceActivitiesError, WorkspaceStickyError,
};
use crate::gestures::{swiped_by, Reached};
use crate::ids::{ActivityId, OutputId, WindowId, WorkspaceId};
use crate::interactive::{DragMotion, DropPlace, Tick};
use crate::lasting;
use crate::layout::{on_output, InteractiveMoveState, Layout, LayoutModel};
use crate::lookup::{by_name, ActivityReferenceArg, WorkspaceReference};
use crate::membership::{distinct, ToggleWorkspaceStickyOutcome};
use crate::mending::lemma_mended_leads;
use crate::moves::{opt_int, MoveWindowToPoolError, MoveWindowToPoolOutcome};
use crate::outages;
use crate::reload::ReloadActivityRemovalError;
use crate::search::{find, lemma_find_from};
use crate::strips::order_models;
use crate::switching::owned_by;
use crate::wholeness;
use crate::windows::{ActivateWindow, AddWindowTarget};
use crate::workspace::{Output, Tile};

verus! {

/// A workspace with more than one activity has another than `act`.
proof fn lemma_another(s: LayoutModel, id: WorkspaceId, act: ActivityId)
    requires
        s.whole(),
        s.pool.has(id),
        s.activities_of(id).contains(act),
        s.activities_of(id).len() != 1,
    ensures
        exists|b: ActivityId| b != act && #[trigger] s.pool.member(id, b),
{
    let acts = s.activities_of(id);
    crate::coherence::lemma_get(s.pool, id);
    assert(s.pool.items[s.pool.pos(id).unwrap()].activities.no_duplicates());
    let b = if acts[0] == act {
        acts[1]
    } else {
        acts[0]
    };
    assert(acts[0] != acts[1]);
    assert(acts.contains(b));
    assert(s.pool.member(id, b));
}

impl Layout {
    /// Exchanges the active workspace with the one below.
    pub fn move_workspace_down(&mut self)
        requires
            old(self)@.whole(),
            old(self)@.monitors.len() > 0 ==> old(self)@.sink(old(self)@.focused).mended().fits(),
        ensures
            final(self)@ == if old(self)@.monitors.len() == 0 { old(self)@ } else {
                old(self)@.sink(old(self)@.focused).mended()
            },
            final(self)@.whole(),
            old(self)@.mindful() ==> final(self)@.mindful(),
            old(self)@.orderly() ==> final(self)@.orderly(),
    {
        proof {
            let s = self@;
            wholeness::law_mending_is_idle(s);
            lemma_mended_leads(if s.monitors.len() == 0 { s } else { s.sink(s.focused) });
            if s.monitors.len() > 0 {
                lasting::law_reordering_keeps_whole(s);
            }
        }
        self.do_move_workspace_down();
        self.mend();
    }

    /// Exchanges the active workspace with the one above.
    pub fn move_workspace_up(&mut self)
        requires
            old(self)@.whole(),
            old(self)@.monitors.len() > 0 ==> old(self)@.raise(old(self)@.focused).mended().fits(),
        ensures
            final(self)@ == if old(self)@.monitors.len() == 0 { old(self)@ } else {
                old(self)@.raise(old(self)@.focused).mended()
            },
            final(self)@.whole(),
            old(self)@.mindful() ==> final(self)@.mindful(),
            old(self)@.orderly() ==> final(self)@.orderly(),
    {
        proof {
            let s = self@;
            wholeness::law_mending_is_idle(s);
            lemma_mended_leads(if s.monitors.len() == 0 { s } else { s.raise(s.focused) });
            if s.monitors.len() > 0 {
                lasting::law_reordering_keeps_whole(s);
            }
        }
        self.do_move_workspace_up();
        self.mend();
    }

    /// Moves a workspace, or the active one, to place `new_idx` of its monitor. `reference` gives
    /// its place, and its output unless that is the focused one.
    pub fn move_workspace_to_idx(
        &mut self,
        reference: Option<(Option<OutputId>, usize)>,
        new_idx: usize,
    )
        requires
            old(self)@.whole(),
            old(self)@.move_workspace_to_idx(
                reference_model(reference),
                new_idx as int,
            ).mended().fits(),
        ensures
            final(self)@ == old(self)@.move_workspace_to_idx(
                reference_model(reference),
                new_idx as int,
            ).mended(),
            final(self)@.whole(),
            old(self)@.mindful() ==> final(self)@.mindful(),
            old(self)@.orderly() ==> final(self)@.orderly(),
    {
        proof {
            let s = self@;
            lemma_mended_leads(s.move_workspace_to_idx(reference_model(reference), new_idx as int));
            lasting::law_moving_to_a_place_keeps_whole(
                s,
                reference_model(reference),
                new_idx as int,
            );
        }
        self.do_move_workspace_to_idx(reference, new_idx);
        self.mend();
    }

    /// Moves the workspace at `old_idx` of output `old_output`, or of the focused one, to output
    /// `new_output`. Says whether the focus went with it.
    pub fn move_workspace_to_output_by_id(
        &mut self,
        old_idx: usize,
        old_output: Option<OutputId>,
        new_output: OutputId,
    ) -> (moved: bool)
        requires
            old(self)@.whole(),
            old(self)@.monitors.len() > 0 ==> {
                &&& old_output is Some ==> old(self)@.monitor_pos(old_output.unwrap()) is Some
                &&& old(self)@.monitor_pos(new_output) is Some
            },
            old(self)@.monitors.len() > 0 ==> old(self)@.transfer(
                old(self)@.source_monitor(old_output),
                old_idx as int,
                old(self)@.monitor_pos(new_output).unwrap(),
            ).mended().fits(),
        ensures
            final(self)@ == if old(self)@.monitors.len() == 0 { old(self)@ } else {
                old(self)@.transfer(
                    old(self)@.source_monitor(old_output),
                    old_idx as int,
                    old(self)@.monitor_pos(new_output).unwrap(),
                ).mended()
            },
            moved == (
                old(self)@.monitors.len() > 0 && {
                    let mon = old(self)@.source_monitor(old_output);
                    mon != old(self)@.monitor_pos(new_output).unwrap()
                        && old_idx < old(self)@.view_len(mon)
                        && old(self)@.is_focused_place(
                        mon,
                        old_idx as int,
                    )
                }
            ),
            final(self)@.whole(),
            old(self)@.orderly() ==> final(self)@.orderly(),
    {
        proof {
            let s = self@;
            wholeness::law_mending_is_idle(s);
            lemma_mended_leads(
                if s.monitors.len() == 0 { s } else {
                    s.transfer(
                        s.source_monitor(old_output),
                        old_idx as int,
                        s.monitor_pos(new_output).unwrap(),
                    )
                }
            );
            if s.monitors.len() > 0 {
                if let Some(out) = old_output {
                    lemma_find_from(s.monitors, on_output(out), 0);
                }
                lemma_find_from(s.monitors, on_output(new_output), 0);
                lasting::law_moving_a_workspace_keeps_whole(
                    s,
                    s.source_monitor(old_output),
                    old_idx as int,
                    s.monitor_pos(new_output).unwrap(),
                );
            }
        }
        let moved = self.do_move_workspace_to_output_by_id(old_idx, old_output, new_output);
        self.mend();
        moved
    }

    /// Moves the active workspace to output `output`. Says whether the focus went with it.
    pub fn move_workspace_to_output(&mut self, output: OutputId) -> (moved: bool)
        requires
            old(self)@.whole(),
            old(self)@.monitors.len() > 0 ==> old(self)@.monitor_pos(output) is Some,
            old(self)@.monitors.len() > 0 ==> old(self)@.transfer(
                old(self)@.focused,
                old(self)@.active_place(old(self)@.focused).1,
                old(self)@.monitor_pos(output).unwrap(),
            ).mended().fits(),
        ensures
            final(self)@ == if old(self)@.monitors.len() == 0 { old(self)@ } else {
                old(self)@.transfer(
                    old(self)@.focused,
                    old(self)@.active_place(old(self)@.focused).1,
                    old(self)@.monitor_pos(output).unwrap(),
                ).mended()
            },
            moved == (
                old(self)@.monitors.len() > 0
                    && old(self)@.focused != old(self)@.monitor_pos(output).unwrap()
                    && old(self)@.active_place(
                    old(self)@.focused
                ).1 < old(self)@.view_len(old(self)@.focused)
            ),
            final(self)@.whole(),
            old(self)@.orderly() ==> final(self)@.orderly(),
    {
        proof {
            let s = self@;
            wholeness::law_mending_is_idle(s);
            lemma_mended_leads(
                if s.monitors.len() == 0 { s } else {
                    s.transfer(
                        s.focused,
                        s.active_place(s.focused).1,
                        s.monitor_pos(output).unwrap(),
                    )
                }
            );
            if s.monitors.len() > 0 {
                lemma_find_from(s.monitors, on_output(output), 0);
                lasting::lemma_active_position(s, s.focused);
                lasting::law_moving_a_workspace_keeps_whole(
                    s,
                    s.focused,
                    s.active_place(s.focused).1,
                    s.monitor_pos(output).unwrap(),
                );
            }
        }
        let moved = self.do_move_workspace_to_output(output);
        self.mend();
        moved
    }

    /// Names the workspace that `reference` refers to, or the active one, unless a workspace has
    /// that name.
    pub fn set_workspace_name(&mut self, name: String, reference: Option<WorkspaceReference>)
        requires
            old(self)@.whole(),
            old(self)@.set_workspace_name(name@, reference).mended().fits(),
        ensures
            final(self)@ == old(self)@.set_workspace_name(name@, reference).mended(),
            final(self)@.whole(),
            old(self)@.mindful() ==> final(self)@.mindful(),
            old(self)@.orderly() ==> final(self)@.orderly(),
    {
        proof {
            let s = self@;
            lemma_mended_leads(s.set_workspace_name(name@, reference));
            lasting::law_naming_keeps_whole(s, name@, reference);
        }
        self.do_set_workspace_name(name, reference);
        self.mend();
    }

    /// Takes the name off the workspace that `reference` refers to, or off the active one.
    pub fn unset_workspace_name(&mut self, reference: Option<WorkspaceReference>)
        requires
            old(self)@.whole(),
            match old(self)@.referred_or_active(reference) {
                Some(id) => old(self)@.unname(id).mended().fits(),
                None => true,
            },
        ensures
            final(self)@ == match old(self)@.referred_or_active(reference) {
                Some(id) => old(self)@.unname(id).mended(),
                None => old(self)@,
            },
            final(self)@.whole(),
            old(self)@.mindful() ==> final(self)@.mindful(),
            old(self)@.orderly() ==> final(self)@.orderly(),
    {
        proof {
            let s = self@;
            wholeness::law_mending_is_idle(s);
            lemma_mended_leads(
                match s.referred_or_active(reference) { Some(id) => s.unname(id), None => s }
            );
            if let Some(id) = s.referred_or_active(reference) {
                lasting::law_unnaming_keeps_whole(s, id);
            }
        }
        self.do_unset_workspace_name(reference);
        self.mend();
    }

    /// Takes the name off workspace `id`.
    pub fn unname_workspace_by_id(&mut self, id: WorkspaceId)
        requires
            old(self)@.whole(),
            old(self)@.unname(id).mended().fits(),
        ensures
            final(self)@ == old(self)@.unname(id).mended(),
            final(self)@.whole(),
            old(self)@.mindful() ==> final(self)@.mindful(),
            old(self)@.orderly() ==> final(self)@.orderly(),
    {
        proof {
            let s = self@;
            lemma_mended_leads(s.unname(id));
            lasting::law_unnaming_keeps_whole(s, id);
        }
        self.do_unname_workspace_by_id(id);
        self.mend();
    }

    /// Takes the name off the workspace that `reference` refers to.
    pub fn unname_workspace_by_ref(&mut self, reference: WorkspaceReference)
        requires
            old(self)@.whole(),
            match old(self)@.referred(reference) {
                Some(id) => old(self)@.unname(id).mended().fits(),
                None => true,
            },
        ensures
            final(self)@ == match old(self)@.referred(reference) {
                Some(id) => old(self)@.unname(id).mended(),
                None => old(self)@,
            },
            final(self)@.whole(),
            old(self)@.mindful() ==> final(self)@.mindful(),
            old(self)@.orderly() ==> final(self)@.orderly(),
    {
        proof {
            let s = self@;
            wholeness::law_mending_is_idle(s);
            lemma_mended_leads(match s.referred(reference) { Some(id) => s.unname(id), None => s });
            if let Some(id) = s.referred(reference) {
                lasting::law_unnaming_keeps_whole(s, id);
            }
        }
        self.do_unname_workspace_by_ref(reference);
        self.mend();
    }

    /// Takes the name off the workspace called `name`.
    pub fn unname_workspace(&mut self, name: &str)
        requires
            old(self)@.whole(),
            match old(self)@.pool.first(by_name(name@)) {
                Some(id) => old(self)@.unname(id).mended().fits(),
                None => true,
            },
        ensures
            final(self)@ == match old(self)@.pool.first(by_name(name@)) {
                Some(id) => old(self)@.unname(id).mended(),
                None => old(self)@,
            },
            final(self)@.whole(),
            old(self)@.mindful() ==> final(self)@.mindful(),
            old(self)@.orderly() ==> final(self)@.orderly(),
    {
        proof {
            let s = self@;
            wholeness::law_mending_is_idle(s);
            lemma_mended_leads(
                match s.pool.first(by_name(name@)) { Some(id) => s.unname(id), None => s }
            );
            if let Some(id) = s.pool.first(by_name(name@)) {
                lasting::law_unnaming_keeps_whole(s, id);
            }
        }
        self.do_unname_workspace(name);
        self.mend();
    }

    /// Makes the workspace at `idx` of the focused monitor active, or the last one.
    pub fn switch_workspace(&mut self, idx: usize)
        requires
            old(self)@.whole(),
            old(self)@.switch_to(idx as int).mended().fits(),
        ensures
            final(self)@ == old(self)@.switch_to(idx as int).mended(),
            final(self)@.whole(),
            old(self)@.mindful() ==> final(self)@.mindful(),
            old(self)@.orderly() ==> final(self)@.orderly(),
    {
        proof {
            let s = self@;
            lemma_mended_leads(s.switch_to(idx as int));
            lasting::law_switching_workspaces_keeps_whole(s, idx as int);
        }
        self.do_switch_workspace(idx);
        self.mend();
    }

    /// Makes the workspace above the active one active.
    pub fn switch_workspace_up(&mut self)
        requires
            old(self)@.whole(),
            old(self)@.switch_up().mended().fits(),
        ensures
            final(self)@ == old(self)@.switch_up().mended(),
            final(self)@.whole(),
            old(self)@.mindful() ==> final(self)@.mindful(),
            old(self)@.orderly() ==> final(self)@.orderly(),
    {
        proof {
            let s = self@;
            lemma_mended_leads(s.switch_up());
            lasting::law_switching_workspaces_keeps_whole(s, 0);
        }
        self.do_switch_workspace_up();
        self.mend();
    }

    /// Makes the workspace below the active one active.
    pub fn switch_workspace_down(&mut self)
        requires
            old(self)@.whole(),
            old(self)@.switch_down().mended().fits(),
        ensures
            final(self)@ == old(self)@.switch_down().mended(),
            final(self)@.whole(),
            old(self)@.mindful() ==> final(self)@.mindful(),
            old(self)@.orderly() ==> final(self)@.orderly(),
    {
        proof {
            let s = self@;
            lemma_mended_leads(s.switch_down());
            lasting::law_switching_workspaces_keeps_whole(s, 0);
        }
        self.do_switch_workspace_down();
        self.mend();
    }

    /// Makes the workspace that was active before on the focused monitor active.
    pub fn switch_workspace_previous(&mut self)
        requires
            old(self)@.whole(),
            old(self)@.switch_back().mended().fits(),
        ensures
            final(self)@ == old(self)@.switch_back().mended(),
            final(self)@.whole(),
            old(self)@.mindful() ==> final(self)@.mindful(),
            old(self)@.orderly() ==> final(self)@.orderly(),
    {
        proof {
            let s = self@;
            lemma_mended_leads(s.switch_back());
            lasting::law_switching_workspaces_keeps_whole(s, 0);
        }
        self.do_switch_workspace_previous();
        self.mend();
    }

    /// Makes the workspace at `idx` of the focused monitor active; if it is, the one before.
    pub fn switch_workspace_auto_back_and_forth(&mut self, idx: usize)
        requires
            old(self)@.whole(),
            old(self)@.switch_to_or_back(idx as int).mended().fits(),
        ensures
            final(self)@ == old(self)@.switch_to_or_back(idx as int).mended(),
            final(self)@.whole(),
            old(self)@.mindful() ==> final(self)@.mindful(),
            old(self)@.orderly() ==> final(self)@.orderly(),
    {
        proof {
            let s = self@;
            lemma_mended_leads(s.switch_to_or_back(idx as int));
            lasting::law_switching_workspaces_keeps_whole(s, idx as int);
        }
        self.do_switch_workspace_auto_back_and_forth(idx);
        self.mend();
    }

    /// Activates the workspace below, unless the focus `moved` within its workspace.
    pub fn focus_window_or_workspace_down(&mut self, moved: bool)
        requires
            old(self)@.whole(),
            !moved ==> old(self)@.switch_down().mended().fits(),
        ensures
            final(self)@ == if moved { old(self)@ } else { old(self)@.switch_down().mended() },
            final(self)@.whole(),
            old(self)@.mindful() ==> final(self)@.mindful(),
            old(self)@.orderly() ==> final(self)@.orderly(),
    {
        proof {
            let s = self@;
            wholeness::law_mending_is_idle(s);
            lemma_mended_leads(if moved { s } else { s.switch_down() });
            if !moved {
                lasting::law_switching_workspaces_keeps_whole(s, 0);
            }
        }
        self.do_focus_window_or_workspace_down(moved);
        self.mend();
    }

    /// Activates the workspace above, unless the focus `moved` within its workspace.
    pub fn focus_window_or_workspace_up(&mut self, moved: bool)
        requires
            old(self)@.whole(),
            !moved ==> old(self)@.switch_up().mended().fits(),
        ensures
            final(self)@ == if moved { old(self)@ } else { old(self)@.switch_up().mended() },
            final(self)@.whole(),
            old(self)@.mindful() ==> final(self)@.mindful(),
            old(self)@.orderly() ==> final(self)@.orderly(),
    {
        proof {
            let s = self@;
            wholeness::law_mending_is_idle(s);
            lemma_mended_leads(if moved { s } else { s.switch_up() });
            if !moved {
                lasting::law_switching_workspaces_keeps_whole(s, 0);
            }
        }
        self.do_focus_window_or_workspace_up(moved);
        self.mend();
    }

    /// Moves the focused column to output `output`, unless it `moved` within its workspace. Says
    /// whether it did.
    pub fn move_column_left_or_to_output(&mut self, moved: bool, output: OutputId) -> (b: bool)
        requires
            old(self)@.whole(),
            !moved && old(self)@.monitors.len() > 0 ==> old(self)@.monitor_pos(output) is Some,
            !moved && old(self)@.monitors.len() > 0 ==> old(self)@.move_column_to_output(
                old(self)@.monitor_pos(output).unwrap(),
                None,
                true,
            ).mended().fits(),
        ensures
            final(self)@ == if moved || old(self)@.monitors.len() == 0 { old(self)@ } else {
                old(self)@.move_column_to_output(
                    old(self)@.monitor_pos(output).unwrap(),
                    None,
                    true,
                ).mended()
            },
            b == !moved,
            final(self)@.whole(),
            old(self)@.mindful() ==> final(self)@.mindful(),
            old(self)@.orderly() ==> final(self)@.orderly(),
    {
        proof {
            let s = self@;
            wholeness::law_mending_is_idle(s);
            lemma_mended_leads(
                if moved || s.monitors.len() == 0 { s } else {
                    s.move_column_to_output(s.monitor_pos(output).unwrap(), None, true)
                }
            );
            if !moved && s.monitors.len() > 0 {
                lemma_find_from(s.monitors, on_output(output), 0);
                lasting::law_moving_columns_across_keeps_whole(
                    s,
                    s.monitor_pos(output).unwrap(),
                    None,
                    true,
                );
            }
        }
        let b = self.do_move_column_left_or_to_output(moved, output);
        self.mend();
        b
    }

    /// Moves the focused column to output `output`, unless it `moved` within its workspace. Says
    /// whether it did.
    pub fn move_column_right_or_to_output(&mut self, moved: bool, output: OutputId) -> (b: bool)
        requires
            old(self)@.whole(),
            !moved && old(self)@.monitors.len() > 0 ==> old(self)@.monitor_pos(output) is Some,
            !moved && old(self)@.monitors.len() > 0 ==> old(self)@.move_column_to_output(
                old(self)@.monitor_pos(output).unwrap(),
                None,
                true,
            ).mended().fits(),
        ensures
            final(self)@ == if moved || old(self)@.monitors.len() == 0 { old(self)@ } else {
                old(self)@.move_column_to_output(
                    old(self)@.monitor_pos(output).unwrap(),
                    None,
                    true,
                ).mended()
            },
            b == !moved,
            final(self)@.whole(),
            old(self)@.mindful() ==> final(self)@.mindful(),
            old(self)@.orderly() ==> final(self)@.orderly(),
    {
        proof {
            let s = self@;
            wholeness::law_mending_is_idle(s);
            lemma_mended_leads(
                if moved || s.monitors.len() == 0 { s } else {
                    s.move_column_to_output(s.monitor_pos(output).unwrap(), None, true)
                }
            );
            if !moved && s.monitors.len() > 0 {
                lemma_find_from(s.monitors, on_output(output), 0);
                lasting::law_moving_columns_across_keeps_whole(
                    s,
                    s.monitor_pos(output).unwrap(),
                    None,
                    true,
                );
            }
        }
        let b = self.do_move_column_right_or_to_output(moved, output);
        self.mend();
        b
    }

    /// Moves the focused window one workspace down, unless it `moved` within its workspace.
    pub fn move_down_or_to_workspace_down(&mut self, moved: bool)
        requires
            old(self)@.whole(),
            !moved ==> old(self)@.move_down(true).mended().fits(),
        ensures
            final(self)@ == if moved { old(self)@ } else { old(self)@.move_down(true).mended() },
            final(self)@.whole(),
            old(self)@.mindful() ==> final(self)@.mindful(),
            old(self)@.orderly() ==> final(self)@.orderly(),
    {
        proof {
            let s = self@;
            wholeness::law_mending_is_idle(s);
            lemma_mended_leads(if moved { s } else { s.move_down(true) });
            if !moved {
                lasting::law_moving_by_one_keeps_whole(s, true);
            }
        }
        self.do_move_down_or_to_workspace_down(moved);
        self.mend();
    }

    /// Moves the focused window one workspace up, unless it `moved` within its workspace.
    pub fn move_up_or_to_workspace_up(&mut self, moved: bool)
        requires
            old(self)@.whole(),
            !moved ==> old(self)@.move_up(true).mended().fits(),
        ensures
            final(self)@ == if moved { old(self)@ } else { old(self)@.move_up(true).mended() },
            final(self)@.whole(),
            old(self)@.mindful() ==> final(self)@.mindful(),
            old(self)@.orderly() ==> final(self)@.orderly(),
    {
        proof {
            let s = self@;
            wholeness::law_mending_is_idle(s);
            lemma_mended_leads(if moved { s } else { s.move_up(true) });
            if !moved {
                lasting::law_moving_by_one_keeps_whole(s, true);
            }
        }
        self.do_move_up_or_to_workspace_up(moved);
        self.mend();
    }

    /// Focuses window `window` where the active activity shows it, without raising it above other
    /// windows that float.
    pub fn activate_window_without_raising(&mut self, window: WindowId)
        requires
            old(self)@.whole(),
            old(self)@.activate_window(window).mended().fits(),
        ensures
            final(self)@ == old(self)@.activate_window(window).mended(),
            final(self)@.whole(),
            old(self)@.mindful() ==> final(self)@.mindful(),
            old(self)@.orderly() ==> final(self)@.orderly(),
    {
        proof {
            let s = self@;
            lemma_mended_leads(s.activate_window(window));
            lasting::law_activating_keeps_whole(s, window);
        }
        self.do_activate_window_without_raising(window);
        self.mend();
    }

    /// Focuses window `w` on workspace `id`.
    pub fn activate_window(&mut self, w: WindowId)
        requires
            old(self)@.whole(),
            old(self)@.activate_window(w).mended().fits(),
        ensures
            final(self)@ == old(self)@.activate_window(w).mended(),
            final(self)@.whole(),
            old(self)@.mindful() ==> final(self)@.mindful(),
            old(self)@.orderly() ==> final(self)@.orderly(),
    {
        proof {
            let s = self@;
            lemma_mended_leads(s.activate_window(w));
            lasting::law_activating_keeps_whole(s, w);
        }
        self.do_activate_window(w);
        self.mend();
    }

    /// Begins a swipe on output `output`, at position `reached`. Swipes on other outputs are let
    /// go, each towards its place in `landings`.
    pub fn workspace_switch_gesture_begin(
        &mut self,
        output: OutputId,
        is_touchpad: bool,
        reached: Reached,
        landings: &Vec<usize>,
    )
        requires
            old(self)@.whole(),
            old(self)@.monitors.len() > 0,
            landings@.len() == old(self)@.monitors.len(),
            old(self)@.begin_swipe(
                output,
                is_touchpad,
                reached,
                landings@,
                old(self)@.monitors.len() as int,
            ).mended().fits(),
        ensures
            final(self)@ == old(self)@.begin_swipe(
                output,
                is_touchpad,
                reached,
                landings@,
                old(self)@.monitors.len() as int,
            ).mended(),
            final(self)@.whole(),
            old(self)@.mindful() ==> final(self)@.mindful(),
            old(self)@.orderly() ==> final(self)@.orderly(),
    {
        proof {
            let s = self@;
            lemma_mended_leads(
                s.begin_swipe(output, is_touchpad, reached, landings@, s.monitors.len() as int)
            );
            lasting::law_swiping_keeps_whole(
                s,
                output,
                is_touchpad,
                reached,
                landings@,
                s.monitors.len() as int,
            );
        }
        self.do_workspace_switch_gesture_begin(output, is_touchpad, reached, landings);
        self.mend();
    }

    /// Lets the swipe go towards the workspace at `landing`, and returns the output it was on.
    pub fn workspace_switch_gesture_end(
        &mut self,
        is_touchpad: Option<bool>,
        landing: usize,
    ) -> (o: Option<Output>)
        requires
            old(self)@.whole(),
            match find(old(self)@.monitors, swiped_by(is_touchpad)) {
                Some(m) => old(self)@.end_swipe(m, landing as int).mended().fits(),
                None => true,
            },
        ensures
            final(self)@ == match find(old(self)@.monitors, swiped_by(is_touchpad)) {
                Some(m) => old(self)@.end_swipe(m, landing as int).mended(),
                None => old(self)@,
            },
            o == match find(old(self)@.monitors, swiped_by(is_touchpad)) {
                Some(m) => Some(old(self)@.monitors[m].output),
                None => None,
            },
            final(self)@.whole(),
            old(self)@.mindful() ==> final(self)@.mindful(),
            old(self)@.orderly() ==> final(self)@.orderly(),
    {
        proof {
            let s = self@;
            wholeness::law_mending_is_idle(s);
            lemma_mended_leads(
                match find(s.monitors, swiped_by(is_touchpad)) {
                    Some(m) => s.end_swipe(m, landing as int),
                    None => s,
                }
            );
            lemma_find_from(s.monitors, swiped_by(is_touchpad), 0);
            if let Some(m) = find(s.monitors, swiped_by(is_touchpad)) {
                lasting::law_letting_go_keeps_whole(s, m, landing as int);
            }
        }
        let o = self.do_workspace_switch_gesture_end(is_touchpad, landing);
        self.mend();
        o
    }

    /// Does the work that follows every event: drags scroll the strips in the overview, views are
    /// held still as long as a drag needs it, and swipes along workspaces out of sight end.
    pub fn refresh(&mut self, is_active: bool)
        requires
            old(self)@.whole(),
            old(self)@.refresh(is_active).mended().fits(),
        ensures
            final(self)@ == old(self)@.refresh(is_active).mended(),
            final(self)@.whole(),
            old(self)@.mindful() ==> final(self)@.mindful(),
            old(self)@.orderly() ==> final(self)@.orderly(),
    {
        proof {
            let s = self@;
            lemma_mended_leads(s.refresh(is_active));
            lasting::law_refreshing_keeps_whole(s, is_active);
        }
        self.do_refresh(is_active);
        self.mend();
    }

    /// Takes note of the motion `motion` of window `window`. Says whether it is the one that is
    /// dragged or grabbed.
    pub fn interactive_move_update(&mut self, window: WindowId, motion: DragMotion) -> (b: bool)
        requires
            old(self)@.whole(),
            old(self)@.moving == Some(
                (InteractiveMoveState::Starting { window_id: window })
            ) ==> (LayoutModel { moving: None, ..old(self)@ }).tile_of(window) is Some,
            old(self)@.update_move(window, motion).mended().fits(),
        ensures
            final(self)@ == old(self)@.update_move(window, motion).mended(),
            b == old(self)@.is_grabbed(window),
            final(self)@.whole(),
            old(self)@.mindful() ==> final(self)@.mindful(),
            old(self)@.orderly() ==> final(self)@.orderly(),
    {
        proof {
            let s = self@;
            lemma_mended_leads(s.update_move(window, motion));
            lasting::law_dragging_keeps_whole(s, window, motion);
        }
        let b = self.do_interactive_move_update(window, motion);
        self.mend();
        b
    }

    /// Ends the drag of window `window` at `place`. A window that was only grabbed stays where it
    /// is.
    pub fn interactive_move_end(&mut self, window: WindowId, place: DropPlace)
        requires
            old(self)@.whole(),
            match old(self)@.moving {
                Some(
                    InteractiveMoveState::Moving(d)
                ) => d.tile.window.id == window ==> old(self)@.let_go(d).can_drop(d, place),
                _ => true,
            },
            old(self)@.end_move(window, place).mended().fits(),
        ensures
            final(self)@ == old(self)@.end_move(window, place).mended(),
            final(self)@.whole(),
            old(self)@.orderly() ==> final(self)@.orderly(),
    {
        proof {
            let s = self@;
            lemma_mended_leads(s.end_move(window, place));
            lasting::law_dropping_keeps_whole(s, window, place);
        }
        self.do_interactive_move_end(window, place);
        self.mend();
    }

    /// Moves everything on by a frame: a drag that has rested long enough activates what it rests
    /// over, the overview has opened or closed, and switches that have arrived end.
    pub fn advance_animations(&mut self, tick: &Tick)
        requires
            old(self)@.whole(),
            tick.slid@.len() == old(self)@.monitors.len(),
            tick.arrived@.len() == old(self)@.monitors.len(),
            old(self)@.advance(
                tick.scrolled,
                tick.target,
                tick.now,
                tick.opened,
                tick.slid@,
                tick.arrived@,
            ).mended().fits(),
        ensures
            final(self)@ == old(self)@.advance(
                tick.scrolled,
                tick.target,
                tick.now,
                tick.opened,
                tick.slid@,
                tick.arrived@,
            ).mended(),
            final(self)@.whole(),
            old(self)@.mindful() ==> final(self)@.mindful(),
            old(self)@.orderly() ==> final(self)@.orderly(),
    {
        proof {
            let s = self@;
            lemma_mended_leads(
                s.advance(
                    tick.scrolled,
                    tick.target,
                    tick.now,
                    tick.opened,
                    tick.slid@,
                    tick.arrived@,
                )
            );
            lasting::law_advancing_keeps_whole(
                s,
                tick.scrolled,
                tick.target,
                tick.now,
                tick.opened,
                tick.slid@,
                tick.arrived@,
            );
        }
        self.do_advance_animations(tick);
        self.mend();
    }

    /// Activates the workspace at `idx` of the focused monitor, and opens the overview or closes
    /// it.
    pub fn toggle_overview_to_workspace(&mut self, idx: usize)
        requires
            old(self)@.whole(),
            old(self)@.monitors.len() > 0 ==> idx < old(self)@.view_len(old(self)@.focused),
            (
                if old(self)@.monitors.len() > 0 {
                    old(self)@.focus_on(old(self)@.focused, idx as int)
                } else { old(self)@ }
            ).set_overview(!old(self)@.overview_open).mended().fits(),
        ensures
            final(self)@ == (
                if old(self)@.monitors.len() > 0 {
                    old(self)@.focus_on(old(self)@.focused, idx as int)
                } else { old(self)@ }
            ).set_overview(!old(self)@.overview_open).mended(),
            final(self)@.whole(),
            old(self)@.mindful() ==> final(self)@.mindful(),
            old(self)@.orderly() ==> final(self)@.orderly(),
    {
        proof {
            let s = self@;
            lemma_mended_leads(
                (
                    if s.monitors.len() > 0 { s.focus_on(s.focused, idx as int) } else { s }
                ).set_overview(!s.overview_open)
            );
            lasting::law_overlooking_keeps_whole(s, idx as int);
        }
        self.do_toggle_overview_to_workspace(idx);
        self.mend();
    }

    /// Puts the tiles `column`, of which `head` has the focus, on the workspace at `workspace_idx`
    /// of monitor `monitor_idx`.
    pub fn add_column_by_idx(
        &mut self,
        monitor_idx: usize,
        workspace_idx: usize,
        column: &Vec<Tile>,
        head: Option<WindowId>,
        activate: bool,
    )
        requires
            old(self)@.whole(),
            monitor_idx < old(self)@.monitors.len(),
            workspace_idx < old(self)@.view_len(monitor_idx as int),
            old(self)@.add_column(
                monitor_idx as int,
                workspace_idx as int,
                column@,
                head,
                activate,
            ).mended().fits(),
        ensures
            final(self)@ == old(self)@.add_column(
                monitor_idx as int,
                workspace_idx as int,
                column@,
                head,
                activate,
            ).mended(),
            final(self)@.whole(),
            old(self)@.mindful() ==> final(self)@.mindful(),
            old(self)@.orderly() && lasting::all_new(old(self)@, column@)
                ==> final(self)@.orderly(),
    {
        proof {
            let s = self@;
            let mon = monitor_idx as int;
            let idx = workspace_idx as int;
            lemma_mended_leads(s.add_column(mon, idx, column@, head, activate));
            lasting::law_adding_a_column_keeps_whole(s, mon, idx, column@, head, activate);
        }
        self.do_add_column_by_idx(monitor_idx, workspace_idx, column, head, activate);
        self.mend();
    }

    /// Moves the focused window one workspace up.
    pub fn move_to_workspace_up(&mut self, focus: bool)
        requires
            old(self)@.whole(),
            old(self)@.move_up(focus).mended().fits(),
        ensures
            final(self)@ == old(self)@.move_up(focus).mended(),
            final(self)@.whole(),
            old(self)@.mindful() ==> final(self)@.mindful(),
            old(self)@.orderly() ==> final(self)@.orderly(),
    {
        proof {
            let s = self@;
            lemma_mended_leads(s.move_up(focus));
            lasting::law_moving_by_one_keeps_whole(s, focus);
        }
        self.do_move_to_workspace_up(focus);
        self.mend();
    }

    /// Moves the focused window one workspace down.
    pub fn move_to_workspace_down(&mut self, focus: bool)
        requires
            old(self)@.whole(),
            old(self)@.move_down(focus).mended().fits(),
        ensures
            final(self)@ == old(self)@.move_down(focus).mended(),
            final(self)@.whole(),
            old(self)@.mindful() ==> final(self)@.mindful(),
            old(self)@.orderly() ==> final(self)@.orderly(),
    {
        proof {
            let s = self@;
            lemma_mended_leads(s.move_down(focus));
            lasting::law_moving_by_one_keeps_whole(s, focus);
        }
        self.do_move_to_workspace_down(focus);
        self.mend();
    }

    /// Moves the focused window to a new workspace above.
    pub fn move_to_new_workspace_up(&mut self, focus: bool)
        requires
            old(self)@.whole(),
            old(self)@.move_new(focus, 0).mended().fits(),
        ensures
            final(self)@ == old(self)@.move_new(focus, 0).mended(),
            final(self)@.whole(),
            old(self)@.orderly() ==> final(self)@.orderly(),
    {
        proof {
            let s = self@;
            lemma_mended_leads(s.move_new(focus, 0));
            lasting::law_moving_to_new_keeps_whole(s, focus, 0);
        }
        self.do_move_to_new_workspace_up(focus);
        self.mend();
    }

    /// Moves the focused window to a new workspace below.
    pub fn move_to_new_workspace_down(&mut self, focus: bool)
        requires
            old(self)@.whole(),
            old(self)@.move_new(focus, 1).mended().fits(),
        ensures
            final(self)@ == old(self)@.move_new(focus, 1).mended(),
            final(self)@.whole(),
            old(self)@.orderly() ==> final(self)@.orderly(),
    {
        proof {
            let s = self@;
            lemma_mended_leads(s.move_new(focus, 1));
            lasting::law_moving_to_new_keeps_whole(s, focus, 1);
        }
        self.do_move_to_new_workspace_down(focus);
        self.mend();
    }

    /// Opens a workspace right above the focused one and focuses it.
    pub fn add_workspace_up(&mut self)
        requires
            old(self)@.whole(),
            old(self)@.open_beside(0).mended().fits(),
        ensures
            final(self)@ == old(self)@.open_beside(0).mended(),
            final(self)@.whole(),
            old(self)@.mindful() ==> final(self)@.mindful(),
            old(self)@.orderly() ==> final(self)@.orderly(),
    {
        proof {
            let s = self@;
            lemma_mended_leads(s.open_beside(0));
            lasting::law_opening_beside_keeps_whole(s, 0);
        }
        self.do_add_workspace_up();
        self.mend();
    }

    /// Opens a workspace right below the focused one and focuses it.
    pub fn add_workspace_down(&mut self)
        requires
            old(self)@.whole(),
            old(self)@.open_beside(1).mended().fits(),
        ensures
            final(self)@ == old(self)@.open_beside(1).mended(),
            final(self)@.whole(),
            old(self)@.mindful() ==> final(self)@.mindful(),
            old(self)@.orderly() ==> final(self)@.orderly(),
    {
        proof {
            let s = self@;
            lemma_mended_leads(s.open_beside(1));
            lasting::law_opening_beside_keeps_whole(s, 1);
        }
        self.do_add_workspace_down();
        self.mend();
    }

    /// Moves a window, or the focused one, to the workspace at `idx` of its monitor.
    pub fn move_to_workspace(
        &mut self,
        window: Option<WindowId>,
        idx: usize,
        activate: ActivateWindow,
    )
        requires
            old(self)@.whole(),
            old(self)@.move_to_workspace(window, idx as int, activate).mended().fits(),
        ensures
            final(self)@ == old(self)@.move_to_workspace(window, idx as int, activate).mended(),
            final(self)@.whole(),
            old(self)@.mindful() ==> final(self)@.mindful(),
            old(self)@.orderly() ==> final(self)@.orderly(),
    {
        proof {
            let s = self@;
            lemma_mended_leads(s.move_to_workspace(window, idx as int, activate));
            lasting::law_moving_within_keeps_whole(s, window, idx as int, activate);
        }
        self.do_move_to_workspace(window, idx, activate);
        self.mend();
    }

    /// Moves a window, or the focused one, to the workspace at `idx` of output `output`, or to the
    /// active one there.
    pub fn move_to_output(
        &mut self,
        window: Option<WindowId>,
        output: OutputId,
        idx: Option<usize>,
        activate: ActivateWindow,
    )
        requires
            old(self)@.whole(),
            old(self)@.command_place(window) is Some ==> old(self)@.monitor_pos(output) is Some,
            old(self)@.move_to_output(
                window,
                old(self)@.monitor_pos(output).unwrap(),
                opt_int(idx),
                activate,
            ).mended().fits(),
        ensures
            final(self)@ == old(self)@.move_to_output(
                window,
                old(self)@.monitor_pos(output).unwrap(),
                opt_int(idx),
                activate,
            ).mended(),
            final(self)@.whole(),
            old(self)@.mindful() ==> final(self)@.mindful(),
            old(self)@.orderly() ==> final(self)@.orderly(),
    {
        proof {
            let s = self@;
            lemma_mended_leads(
                s.move_to_output(window, s.monitor_pos(output).unwrap(), opt_int(idx), activate)
            );
            if s.command_place(window) is Some {
                lemma_find_from(s.monitors, on_output(output), 0);
                lasting::law_moving_across_keeps_whole(
                    s,
                    window,
                    s.monitor_pos(output).unwrap(),
                    opt_int(idx),
                    activate,
                );
            } else {
                wholeness::law_mending_is_idle(s);
            }
        }
        self.do_move_to_output(window, output, idx, activate);
        self.mend();
    }

    /// Moves the focused column one workspace up.
    pub fn move_column_to_workspace_up(&mut self, activate: bool)
        requires
            old(self)@.whole(),
            old(self)@.column_up(activate).mended().fits(),
        ensures
            final(self)@ == old(self)@.column_up(activate).mended(),
            final(self)@.whole(),
            old(self)@.mindful() ==> final(self)@.mindful(),
            old(self)@.orderly() ==> final(self)@.orderly(),
    {
        proof {
            let s = self@;
            lemma_mended_leads(s.column_up(activate));
            lasting::law_moving_columns_by_one_keeps_whole(s, activate);
        }
        self.do_move_column_to_workspace_up(activate);
        self.mend();
    }

    /// Moves the focused column one workspace down.
    pub fn move_column_to_workspace_down(&mut self, activate: bool)
        requires
            old(self)@.whole(),
            old(self)@.column_down(activate).mended().fits(),
        ensures
            final(self)@ == old(self)@.column_down(activate).mended(),
            final(self)@.whole(),
            old(self)@.mindful() ==> final(self)@.mindful(),
            old(self)@.orderly() ==> final(self)@.orderly(),
    {
        proof {
            let s = self@;
            lemma_mended_leads(s.column_down(activate));
            lasting::law_moving_columns_by_one_keeps_whole(s, activate);
        }
        self.do_move_column_to_workspace_down(activate);
        self.mend();
    }

    /// Moves the focused column to the workspace at `idx` of its monitor.
    pub fn move_column_to_workspace(&mut self, idx: usize, activate: bool)
        requires
            old(self)@.whole(),
            old(self)@.monitors.len() > 0 ==> old(self)@.move_column_to_workspace(
                idx as int,
                activate,
            ).mended().fits(),
        ensures
            final(self)@ == if old(self)@.monitors.len() == 0 { old(self)@ } else {
                old(self)@.move_column_to_workspace(idx as int, activate).mended()
            },
            final(self)@.whole(),
            old(self)@.mindful() ==> final(self)@.mindful(),
            old(self)@.orderly() ==> final(self)@.orderly(),
    {
        proof {
            let s = self@;
            wholeness::law_mending_is_idle(s);
            lemma_mended_leads(
                if s.monitors.len() == 0 { s } else {
                    s.move_column_to_workspace(idx as int, activate)
                }
            );
            if s.monitors.len() > 0 {
                lasting::law_moving_columns_within_keeps_whole(s, idx as int, activate);
            }
        }
        self.do_move_column_to_workspace(idx, activate);
        self.mend();
    }

    /// Puts the focused column of the focused workspace on the one at `idx` of output `output`, or
    /// on the active one there.
    pub fn move_column_to_output(&mut self, output: OutputId, idx: Option<usize>, activate: bool)
        requires
            old(self)@.whole(),
            old(self)@.monitors.len() > 0 ==> old(self)@.monitor_pos(output) is Some,
            old(self)@.monitors.len() > 0 ==> old(self)@.move_column_to_output(
                old(self)@.monitor_pos(output).unwrap(),
                opt_int(idx),
                activate,
            ).mended().fits(),
        ensures
            final(self)@ == if old(self)@.monitors.len() == 0 { old(self)@ } else {
                old(self)@.move_column_to_output(
                    old(self)@.monitor_pos(output).unwrap(),
                    opt_int(idx),
                    activate,
                ).mended()
            },
            final(self)@.whole(),
            old(self)@.mindful() ==> final(self)@.mindful(),
            old(self)@.orderly() ==> final(self)@.orderly(),
    {
        proof {
            let s = self@;
            wholeness::law_mending_is_idle(s);
            lemma_mended_leads(
                if s.monitors.len() == 0 { s } else {
                    s.move_column_to_output(s.monitor_pos(output).unwrap(), opt_int(idx), activate)
                }
            );
            if s.monitors.len() > 0 {
                lemma_find_from(s.monitors, on_output(output), 0);
                lasting::law_moving_columns_across_keeps_whole(
                    s,
                    s.monitor_pos(output).unwrap(),
                    opt_int(idx),
                    activate,
                );
            }
        }
        self.do_move_column_to_output(output, idx, activate);
        self.mend();
    }

    /// Moves a window, or the focused one, to the workspace with the number `raw`, in any
    /// activity. If the active activity shows that one, nothing happens here.
    pub fn move_window_to_pool_workspace(
        &mut self,
        window: Option<WindowId>,
        raw: u64,
        activate: ActivateWindow,
    ) -> (r: Result<MoveWindowToPoolOutcome, MoveWindowToPoolError>)
        requires
            old(self)@.whole(),
            old(self)@.pool_move(window, raw) is Ok
                && old(self)@.pool_move(window, raw)->Ok_0 is MovedDormant ==> old(self)@.move_to_pool(
                window,
                WorkspaceId(raw),
                activate,
            ).mended().fits(),
        ensures
            final(self)@ == if old(self)@.pool_move(window, raw) is Ok
                && old(self)@.pool_move(window, raw)->Ok_0 is MovedDormant {
                old(self)@.move_to_pool(window, WorkspaceId(raw), activate).mended()
            } else { old(self)@ },
            r == old(self)@.pool_move(window, raw),
            final(self)@.whole(),
            old(self)@.mindful() ==> final(self)@.mindful(),
            old(self)@.orderly() ==> final(self)@.orderly(),
    {
        proof {
            let s = self@;
            wholeness::law_mending_is_idle(s);
            lemma_mended_leads(
                if s.pool_move(window, raw) is Ok
                    && s.pool_move(window, raw)->Ok_0 is MovedDormant {
                    s.move_to_pool(window, WorkspaceId(raw), activate)
                } else { s }
            );
            if s.pool_move(window, raw) is Ok && s.pool_move(window, raw)->Ok_0 is MovedDormant {
                lasting::law_moving_out_of_sight_keeps_whole(s, window, WorkspaceId(raw), activate);
            }
        }
        let r = self.do_move_window_to_pool_workspace(window, raw, activate);
        self.mend();
        r
    }

    /// Adds a window, as `tile`, and returns the output it is on, if any is connected.
    pub fn add_window(
        &mut self,
        tile: Tile,
        target: AddWindowTarget,
        activate: ActivateWindow,
    ) -> (o: Option<Output>)
        requires
            old(self)@.whole(),
            old(self)@.can_add(target),
            old(self)@.add_window(tile, target, activate).mended().fits(),
        ensures
            final(self)@ == old(self)@.add_window(tile, target, activate).mended(),
            o == old(self)@.add_output_of(target),
            final(self)@.whole(),
            old(self)@.mindful() ==> final(self)@.mindful(),
            old(self)@.orderly() && old(self)@.census(tile.window.id) == 0
                ==> final(self)@.orderly(),
    {
        proof {
            let s = self@;
            lemma_mended_leads(s.add_window(tile, target, activate));
            lasting::law_adding_keeps_whole(s, tile, target, activate);
        }
        let o = self.do_add_window(tile, target, activate);
        self.mend();
        o
    }

    /// Takes window `w`, which closes, out of the layout and returns its tile.
    pub fn remove_window(&mut self, w: WindowId) -> (t: Option<Tile>)
        requires
            old(self)@.whole(),
            (
                LayoutModel { bookmarks: old(self)@.bookmarks.prune(w), ..old(self)@ }
            ).take_window(w).mended().fits(),
        ensures
            final(self)@ == (
                LayoutModel { bookmarks: old(self)@.bookmarks.prune(w), ..old(self)@ }
            ).take_window(w).mended(),
            t == old(self)@.tile_of(w),
            final(self)@.whole(),
            old(self)@.mindful() ==> final(self)@.mindful(),
            old(self)@.orderly() ==> final(self)@.orderly() && final(self)@.census(w) == 0,
    {
        proof {
            let s = self@;
            lemma_mended_leads(
                (LayoutModel { bookmarks: s.bookmarks.prune(w), ..s }).take_window(w)
            );
            lasting::law_forgetting_a_window_keeps_whole(s, w);
        }
        let t = self.do_remove_window(w);
        self.mend();
        t
    }

    /// Makes activity `target` active. Nothing happens if it is active already or does not exist.
    pub fn switch_activity(&mut self, target: ActivityId)
        requires
            old(self)@.whole(),
            old(self)@.switch_activity(target).mended().fits(),
        ensures
            final(self)@ == old(self)@.switch_activity(target).mended(),
            final(self)@.whole(),
            old(self)@.mindful() ==> final(self)@.mindful(),
            old(self)@.orderly() && free_to_switch(old(self)@, target) ==> final(self)@.orderly(),
    {
        proof {
            let s = self@;
            lemma_mended_leads(s.switch_activity(target));
            abiding::law_switching_keeps_whole(s, target);
        }
        self.do_switch_activity(target);
        self.mend();
    }

    /// Switches to the activity that `depth` others were active after, at most to the oldest one.
    /// Activities that were never active do not count.
    pub fn switch_activity_previous(&mut self, depth: u32)
        requires
            old(self)@.whole(),
            match old(self)@.recent(depth) {
                Some(id) => old(self)@.switch_activity(id).mended().fits(),
                None => true,
            },
        ensures
            final(self)@ == match old(self)@.recent(depth) {
                Some(id) => old(self)@.switch_activity(id).mended(),
                None => old(self)@,
            },
            final(self)@.whole(),
            old(self)@.mindful() ==> final(self)@.mindful(),
            old(self)@.orderly() && match old(self)@.recent(depth) {
                Some(id) => free_to_switch(old(self)@, id),
                None => true,
            } ==> final(self)@.orderly(),
    {
        proof {
            let s = self@;
            wholeness::law_mending_is_idle(s);
            lemma_mended_leads(
                match s.recent(depth) { Some(id) => s.switch_activity(id), None => s }
            );
            if let Some(id) = s.recent(depth) {
                abiding::law_switching_keeps_whole(s, id);
            }
        }
        self.do_switch_activity_previous(depth);
        self.mend();
    }

    /// Declares the activities called `names`, in that order before all others, and puts every
    /// declared or sticky workspace in the activities it belongs to. A name that an activity has
    /// up to case keeps that activity as it is.
    pub fn reconcile_activities_on_reload_add(
        &mut self,
        names: &Vec<String>,
        workspaces: &Vec<WorkspaceDecl>,
    )
        requires
            old(self)@.whole(),
            old(self)@.declare_activities(texts(names@), decl_models(workspaces@)).mended().fits(),
        ensures
            final(self)@ == old(self)@.declare_activities(
                texts(names@),
                decl_models(workspaces@),
            ).mended(),
            final(self)@.whole(),
            old(self)@.orderly() ==> final(self)@.orderly(),
    {
        proof {
            let s = self@;
            lemma_mended_leads(s.declare_activities(texts(names@), decl_models(workspaces@)));
            abiding::law_declaring_keeps_whole(s, texts(names@), decl_models(workspaces@));
        }
        self.do_reconcile_activities_on_reload_add(names, workspaces);
        self.mend();
    }

    /// Opens the declared workspace `decl`, unless a workspace has its name: at the top of the
    /// active view if it belongs to the active activity, and above the last workspace of the views
    /// of its other activities.
    pub fn ensure_named_workspace(&mut self, decl: &WorkspaceDecl)
        requires
            old(self)@.whole(),
            old(self)@.ensure_named(decl@).mended().fits(),
        ensures
            final(self)@ == old(self)@.ensure_named(decl@).mended(),
            final(self)@.whole(),
            old(self)@.orderly() ==> final(self)@.orderly(),
    {
        proof {
            let s = self@;
            lemma_mended_leads(s.ensure_named(decl@));
            abiding::law_opening_a_declared_workspace_keeps_whole(s, decl@);
        }
        self.do_ensure_named_workspace(decl);
        self.mend();
    }

    /// Adds a workspace to an activity. Nothing happens if it belongs to it already.
    pub fn add_workspace_to_activity(
        &mut self,
        workspace: Option<WorkspaceReference>,
        activity: &ActivityReferenceArg,
    ) -> (r: Result<(WorkspaceId, ActivityId), AddWorkspaceToActivityError>)
        requires
            old(self)@.whole(),
            match (
                old(self)@.referred_activity(*activity),
                old(self)@.referred_or_active(workspace),
            ) {
                (Some(act), Some(id)) => old(self)@.join(id, act).mended().fits(),
                _ => true,
            },
        ensures
            match (
                old(self)@.referred_activity(*activity),
                old(self)@.referred_or_active(workspace),
            ) {
                (None, _) => r is Err && r->Err_0 is ActivityNotFound && final(self)@ == old(self)@,
                (Some(_), None) => r is Err && r->Err_0 is WorkspaceNotFound && final(self)@ == old(self)@,
                (Some(act), Some(id)) => r is Ok && r->Ok_0 == (id, act) && final(self)@ == old(self)@.join(id, act).mended(),
            },
            final(self)@.whole(),
            old(self)@.mindful() ==> final(self)@.mindful(),
            old(self)@.orderly() ==> final(self)@.orderly(),
    {
        proof {
            let s = self@;
            wholeness::law_mending_is_idle(s);
            if s.referred_activity(*activity) is Some && s.referred_or_active(workspace) is Some {
                lemma_mended_leads(
                    s.join(
                        s.referred_or_active(workspace).unwrap(),
                        s.referred_activity(*activity).unwrap(),
                    )
                );
                abiding::lemma_referred_activity(s, *activity);
                lasting::lemma_referred(s, workspace);
                abiding::law_joining_keeps_whole(
                    s,
                    s.referred_or_active(workspace).unwrap(),
                    s.referred_activity(*activity).unwrap(),
                );
            }
        }
        let r = self.do_add_workspace_to_activity(workspace, activity);
        if r.is_ok() {
            self.mend();
        }
        r
    }

    /// Removes a workspace from an activity. Nothing happens if it does not belong to it; it is an
    /// error if it belongs to no other.
    pub fn remove_workspace_from_activity(
        &mut self,
        workspace: Option<WorkspaceReference>,
        activity: &ActivityReferenceArg,
    ) -> (r: Result<(WorkspaceId, ActivityId), RemoveWorkspaceFromActivityError>)
        requires
            old(self)@.whole(),
            match (
                old(self)@.referred_activity(*activity),
                old(self)@.referred_or_active(workspace),
            ) {
                (Some(act), Some(id)) => old(self)@.activities_of(id).contains(act) && old(
                    self)@.activities_of(id).len() != 1 ==> old(self)@.part(id, act).mended().fits(),
                _ => true,
            },
        ensures
            match (
                old(self)@.referred_activity(*activity),
                old(self)@.referred_or_active(workspace),
            ) {
                (None, _) => r is Err && r->Err_0 is ActivityNotFound && final(self)@ == old(self)@,
                (Some(_), None) => r is Err && r->Err_0 is WorkspaceNotFound && final(self)@ == old(self)@,
                (Some(act), Some(id)) => if !old(self)@.activities_of(id).contains(act) {
                    r is Ok && r->Ok_0 == (id, act) && final(self)@ == old(self)@
                } else if old(self)@.activities_of(id).len() == 1 {
                    r is Err && r->Err_0 is LastActivity && final(self)@ == old(self)@
                } else {
                    r is Ok && r->Ok_0 == (id, act) && final(self)@ == old(self)@.part(id, act).mended()
                },
            },
            final(self)@.whole(),
            old(self)@.mindful() ==> final(self)@.mindful(),
            old(self)@.orderly() ==> final(self)@.orderly(),
    {
        proof {
            let s = self@;
            wholeness::law_mending_is_idle(s);
            if s.referred_activity(*activity) is Some && s.referred_or_active(workspace) is Some
                && (
                s.activities_of(
                    s.referred_or_active(workspace).unwrap()
                ).len() != 1 || !s.activities_of(
                    s.referred_or_active(workspace).unwrap()
                ).contains(s.referred_activity(*activity).unwrap())
            ) {
                lemma_mended_leads(
                    if s.activities_of(s.referred_or_active(workspace).unwrap()).contains(s.referred_activity(*activity).unwrap()) {
                        s.part(
                            s.referred_or_active(workspace).unwrap(),
                            s.referred_activity(*activity).unwrap(),
                        )
                    } else { s }
                );
                let id = s.referred_or_active(workspace).unwrap();
                let act = s.referred_activity(*activity).unwrap();
                lasting::lemma_referred(s, workspace);
                if s.activities_of(id).contains(act) {
                    lemma_another(s, id, act);
                    abiding::law_parting_keeps_whole(s, id, act);
                } else {
                }
            }
        }
        let r = self.do_remove_workspace_from_activity(workspace, activity);
        if r.is_ok() {
            self.mend();
        }
        r
    }

    /// Gives a workspace other activities. Returns the workspace, its activities, and whether that
    /// changed whether it belongs to the active one.
    pub fn set_workspace_activities(
        &mut self,
        workspace: Option<WorkspaceReference>,
        activity_refs: &Vec<ActivityReferenceArg>,
    ) -> (r: Result<(WorkspaceId, Vec<ActivityId>, bool), SetWorkspaceActivitiesError>)
        requires
            old(self)@.whole(),
            match (
                old(self)@.referred_activities(activity_refs@),
                old(self)@.referred_or_active(workspace),
            ) {
                (Some(acts), Some(id)) => acts.len() > 0 ==> old(self)@.reassign(
                    id,
                    distinct(acts),
                ).mended().fits(),
                _ => true,
            },
        ensures
            match (
                old(self)@.referred_activities(activity_refs@),
                old(self)@.referred_or_active(workspace),
            ) {
                (None, _) => r is Err && r->Err_0 is ActivityNotFound && final(self)@ == old(self)@,
                (Some(acts), w) => if acts.len() == 0 {
                    r is Err && r->Err_0 is EmptyActivityList && final(self)@ == old(self)@
                } else {
                    match w {
                        None => r is Err && r->Err_0 is WorkspaceNotFound && final(self)@ == old(self)@,
                        Some(id) => r is Ok && r->Ok_0.0 == id && r->Ok_0.1@ == distinct(acts)
                            && r->Ok_0.2 == old(self)@.reassign_affects(id, distinct(acts))
                            && final(self)@ == old(self)@.reassign(id, distinct(acts)).mended(),
                    }
                },
            },
            final(self)@.whole(),
            old(self)@.mindful() ==> final(self)@.mindful(),
            old(self)@.orderly() ==> final(self)@.orderly(),
    {
        proof {
            let s = self@;
            wholeness::law_mending_is_idle(s);
            if s.referred_activities(
                activity_refs@
            ) is Some && s.referred_activities(
                activity_refs@
            ).unwrap().len() > 0 && s.referred_or_active(workspace) is Some {
                lemma_mended_leads(
                    s.reassign(
                        s.referred_or_active(workspace).unwrap(),
                        distinct(s.referred_activities(activity_refs@).unwrap()),
                    )
                );
                let acts = s.referred_activities(activity_refs@).unwrap();
                abiding::lemma_referred_activities(s, activity_refs@);
                lemma_distinct(acts);
                wholeness::lemma_distinct_once(acts);
                abiding::law_reassigning_keeps_whole(
                    s,
                    s.referred_or_active(workspace).unwrap(),
                    distinct(acts),
                );
            }
        }
        let r = self.do_set_workspace_activities(workspace, activity_refs);
        if r.is_ok() {
            self.mend();
        }
        r
    }

    /// Moves a workspace from the active activity to another: it is added there, then removed
    /// here. Returns the workspace, where it went and where it came from.
    pub fn move_workspace_to_activity(
        &mut self,
        workspace: Option<WorkspaceReference>,
        activity: &ActivityReferenceArg,
    ) -> (r: Result<(WorkspaceId, ActivityId, ActivityId), MoveWorkspaceToActivityError>)
        requires
            old(self)@.whole(),
            match (
                old(self)@.referred_activity(*activity),
                old(self)@.referred_or_active(workspace),
            ) {
                (Some(act), Some(id)) => act != old(self)@.acts.active && old(self)@.activities_of(
                    id,
                ).contains(old(self)@.acts.active) ==> old(self)@.join(id, act).part(
                    id,
                    old(self)@.acts.active,
                ).mended().fits(),
                _ => true,
            },
        ensures
            match (
                old(self)@.referred_activity(*activity),
                old(self)@.referred_or_active(workspace),
            ) {
                (None, _) => r is Err && r->Err_0 is ActivityNotFound && final(self)@ == old(self)@,
                (Some(_), None) => r is Err && r->Err_0 is WorkspaceNotFound && final(self)@ == old(self)@,
                (Some(act), Some(id)) => {
                    let source = old(self)@.acts.active;
                    if !old(self)@.activities_of(id).contains(source) {
                        r is Err && r->Err_0 is WorkspaceNotInActiveActivity && final(self)@ == old(self)@
                    } else {
                        r is Ok && r->Ok_0 == (id, act, source) && final(self)@ == if act
                            == source {
                            old(self)@
                        } else {
                            old(self)@.join(id, act).part(id, source).mended()
                        }
                    }
                },
            },
            final(self)@.whole(),
            old(self)@.mindful() ==> final(self)@.mindful(),
            old(self)@.orderly() ==> final(self)@.orderly(),
    {
        proof {
            let s = self@;
            wholeness::law_mending_is_idle(s);
            if s.referred_activity(*activity) is Some && s.referred_or_active(workspace) is Some
                && s.activities_of(
                s.referred_or_active(workspace).unwrap()
            ).contains(s.acts.active) {
                lemma_mended_leads(
                    if s.referred_activity(*activity).unwrap() == s.acts.active { s } else {
                        s.join(
                            s.referred_or_active(workspace).unwrap(),
                            s.referred_activity(*activity).unwrap(),
                        ).part(s.referred_or_active(workspace).unwrap(), s.acts.active)
                    }
                );
                let id = s.referred_or_active(workspace).unwrap();
                let act = s.referred_activity(*activity).unwrap();
                lasting::lemma_referred(s, workspace);
                abiding::lemma_referred_activity(s, *activity);
                if act != s.acts.active {
                    abiding::law_moving_between_activities_keeps_whole(s, id, act, s.acts.active);
                } else {
                }
            }
        }
        let r = self.do_move_workspace_to_activity(workspace, activity);
        if r.is_ok() {
            self.mend();
        }
        r
    }

    /// Makes a workspace sticky: it comes to belong to every activity, present and future.
    pub fn set_workspace_sticky(&mut self, workspace: Option<WorkspaceReference>) -> (r: Result<
        (WorkspaceId, bool),
        WorkspaceStickyError,
    >)
        requires
            old(self)@.whole(),
            match old(self)@.referred_or_active(workspace) {
                Some(id) => !old(self)@.is_stuck(id) ==> old(self)@.stick(id).mended().fits(),
                None => true,
            },
        ensures
            match old(self)@.referred_or_active(workspace) {
                None => r is Err && final(self)@ == old(self)@,
                Some(id) => r is Ok && r->Ok_0.0 == id && r->Ok_0.1 == (!old(self)@.is_stuck(id)
                    && old(self)@.reassign_affects(
                        id,
                        distinct(old(self)@.acts.ids()),
                    )) && final(self)@ == if old(self)@.is_stuck(id) {
                    old(self)@
                } else {
                    old(self)@.stick(id).mended()
                },
            },
            final(self)@.whole(),
            old(self)@.mindful() ==> final(self)@.mindful(),
            old(self)@.orderly() ==> final(self)@.orderly(),
    {
        proof {
            let s = self@;
            wholeness::law_mending_is_idle(s);
            if s.referred_or_active(workspace) is Some {
                lemma_mended_leads(
                    if s.is_stuck(s.referred_or_active(workspace).unwrap()) { s } else {
                        s.stick(s.referred_or_active(workspace).unwrap())
                    }
                );
                let id = s.referred_or_active(workspace).unwrap();
                abiding::law_sticking_keeps_whole(s, id);
                wholeness::law_mending_is_idle(s);
            }
        }
        let r = self.do_set_workspace_sticky(workspace);
        if r.is_ok() {
            self.mend();
        }
        r
    }

    /// Makes a workspace not sticky. It goes on belonging to the activities it belongs to.
    pub fn unset_workspace_sticky(&mut self, workspace: Option<WorkspaceReference>) -> (r: Result<
        WorkspaceId,
        WorkspaceStickyError,
    >)
        requires
            old(self)@.whole(),
            match old(self)@.referred_or_active(workspace) {
                Some(id) => (LayoutModel {
                    pool: old(self)@.pool.set_sticky(id, false),
                    ..old(self)@
                }).mended().fits(),
                None => true,
            },
        ensures
            match old(self)@.referred_or_active(workspace) {
                None => r is Err && final(self)@ == old(self)@,
                Some(id) => r is Ok && r->Ok_0 == id && final(self)@ == (LayoutModel {
                    pool: old(self)@.pool.set_sticky(id, false),
                    ..old(self)@
                }).mended(),
            },
            final(self)@.whole(),
            old(self)@.mindful() ==> final(self)@.mindful(),
            old(self)@.orderly() ==> final(self)@.orderly(),
    {
        proof {
            let s = self@;
            wholeness::law_mending_is_idle(s);
            if s.referred_or_active(workspace) is Some {
                lemma_mended_leads(
                    LayoutModel {
                        pool: s.pool.set_sticky(s.referred_or_active(workspace).unwrap(), false),
                        ..s
                    }
                );
                let id = s.referred_or_active(workspace).unwrap();
                abiding::law_sticking_keeps_whole(s, id);
                wholeness::law_mending_is_idle(s);
            }
        }
        let r = self.do_unset_workspace_sticky(workspace);
        if r.is_ok() {
            self.mend();
        }
        r
    }

    /// Makes a workspace sticky if it is not, and the opposite if it is.
    pub fn toggle_workspace_sticky(&mut self, workspace: Option<WorkspaceReference>) -> (r: Result<
        ToggleWorkspaceStickyOutcome,
        WorkspaceStickyError,
    >)
        requires
            old(self)@.whole(),
            match old(self)@.referred_or_active(workspace) {
                Some(id) => if old(self)@.is_sticky(id) {
                    (LayoutModel {
                        pool: old(self)@.pool.set_sticky(id, false),
                        ..old(self)@
                    }).mended().fits()
                } else {
                    old(self)@.stick(id).mended().fits()
                },
                None => true,
            },
        ensures
            match old(self)@.referred_or_active(workspace) {
                None => r is Err && final(self)@ == old(self)@,
                Some(id) => if old(self)@.is_sticky(id) {
                    r is Ok && r->Ok_0 == (ToggleWorkspaceStickyOutcome::StickyOff { ws_id: id })
                        && final(self)@ == (LayoutModel {
                        pool: old(self)@.pool.set_sticky(id, false),
                        ..old(self)@
                    }).mended()
                } else {
                    r is Ok && r->Ok_0 == (ToggleWorkspaceStickyOutcome::StickyOn {
                        ws_id: id,
                        active_affected: old(self)@.reassign_affects(
                            id,
                            distinct(old(self)@.acts.ids()),
                        ),
                    }) && final(self)@ == old(self)@.stick(id).mended()
                },
            },
            final(self)@.whole(),
            old(self)@.mindful() ==> final(self)@.mindful(),
            old(self)@.orderly() ==> final(self)@.orderly(),
    {
        proof {
            let s = self@;
            wholeness::law_mending_is_idle(s);
            if s.referred_or_active(workspace) is Some {
                lemma_mended_leads(
                    if s.is_sticky(s.referred_or_active(workspace).unwrap()) {
                        LayoutModel {
                            pool: s.pool.set_sticky(
                                s.referred_or_active(workspace).unwrap(),
                                false,
                            ),
                            ..s
                        }
                    } else { s.stick(s.referred_or_active(workspace).unwrap()) }
                );
                let id = s.referred_or_active(workspace).unwrap();
                abiding::law_sticking_keeps_whole(s, id);
                wholeness::law_mending_is_idle(s);
            }
        }
        let r = self.do_toggle_workspace_sticky(workspace);
        if r.is_ok() {
            self.mend();
        }
        r
    }

    /// Creates an activity called `name` and returns its id. Sticky workspaces come to belong to
    /// it; it gets a view of every connected output.
    pub fn create_activity(&mut self, name: String) -> (r: Result<ActivityId, CreateActivityError>)
        requires
            old(self)@.whole(),
            old(self)@.create_error(name@) is None ==> old(self)@.create_activity(name@).mended().fits(),
        ensures
            match r {
                Ok(id) => old(self)@.create_error(name@) is None && id == ActivityId(
                    old(self)@.acts.next as u64,
                ) && final(self)@ == old(self)@.create_activity(name@).mended(),
                Err(e) => old(self)@.create_error(name@) == Some(e) && final(self)@ == old(self)@,
            },
            final(self)@.whole(),
            old(self)@.orderly() ==> final(self)@.orderly(),
    {
        proof {
            let s = self@;
            wholeness::law_mending_is_idle(s);
            if s.create_error(name@) is None {
                lemma_mended_leads(s.create_activity(name@));
                abiding::law_creating_keeps_whole(s, name@);
            }
        }
        let r = self.do_create_activity(name);
        if r.is_ok() {
            self.mend();
        }
        r
    }

    /// Removes the activity that `reference` names and returns its id. It has to be one that the
    /// configuration does not declare, not the last one, and without windows or names of its own.
    pub fn remove_activity(&mut self, reference: &ActivityReferenceArg) -> (r: Result<
        ActivityId,
        RemoveActivityError,
    >)
        requires
            old(self)@.whole(),
            match old(self)@.referred_activity(*reference) {
                Some(target) => old(self)@.remove_error(target) is None ==> old(self)@.remove_activity(
                    target,
                    crate::materialize::ids_of(old(self)@.pool.items.filter(owned_by(target))),
                ).mended().fits(),
                None => true,
            },
        ensures
            match old(self)@.referred_activity(*reference) {
                Some(target) => match old(self)@.remove_error(target) {
                    None => r == Ok::<ActivityId, RemoveActivityError>(target) && final(self)@
                        == old(self)@.remove_activity(
                        target,
                        crate::materialize::ids_of(old(self)@.pool.items.filter(owned_by(target))),
                    ).mended(),
                    Some(e) => r == Err::<ActivityId, RemoveActivityError>(e) && final(self)@
                        == old(self)@,
                },
                None => r == Err::<ActivityId, RemoveActivityError>(RemoveActivityError::NotFound)
                    && final(self)@ == old(self)@,
            },
            final(self)@.whole(),
            old(self)@.orderly() && match old(self)@.referred_activity(*reference) {
                Some(target) => old(self)@.free_to_remove(target),
                None => true,
            } ==> final(self)@.orderly(),
    {
        proof {
            let s = self@;
            wholeness::law_mending_is_idle(s);
            if s.referred_activity(*reference) is Some && s.remove_error(
                s.referred_activity(*reference).unwrap()
            ) is None {
                lemma_mended_leads(
                    s.remove_activity(
                        s.referred_activity(*reference).unwrap(),
                        s.own_of(s.referred_activity(*reference).unwrap()),
                    )
                );
                abiding::lemma_referred_activity(s, *reference);
                abiding::law_removing_an_activity_keeps_whole(
                    s,
                    s.referred_activity(*reference).unwrap(),
                );
            }
        }
        let r = self.do_remove_activity(reference);
        if r.is_ok() {
            self.mend();
        }
        r
    }

    /// Renames the activity that `reference` names and returns its id. Nothing else changes.
    pub fn rename_activity(&mut self, reference: &ActivityReferenceArg, name: String) -> (r: Result<
        ActivityId,
        RenameActivityError,
    >)
        requires
            old(self)@.whole(),
            match old(self)@.referred_activity(*reference) {
                Some(target) => old(self)@.rename_error(target, name@) is None ==> old(
                    self)@.rename_activity(target, name@).mended().fits(),
                None => true,
            },
        ensures
            match old(self)@.referred_activity(*reference) {
                Some(target) => match old(self)@.rename_error(target, name@) {
                    None => r == Ok::<ActivityId, RenameActivityError>(target) && final(self)@
                        == old(self)@.rename_activity(target, name@).mended(),
                    Some(e) => r == Err::<ActivityId, RenameActivityError>(e) && final(self)@
                        == old(self)@,
                },
                None => r == Err::<ActivityId, RenameActivityError>(RenameActivityError::NotFound)
                    && final(self)@ == old(self)@,
            },
            final(self)@.whole(),
            old(self)@.mindful() ==> final(self)@.mindful(),
            old(self)@.orderly() ==> final(self)@.orderly(),
    {
        proof {
            let s = self@;
            wholeness::law_mending_is_idle(s);
            if s.referred_activity(*reference) is Some && s.rename_error(
                s.referred_activity(*reference).unwrap(),
                name@,
            ) is None {
                lemma_mended_leads(
                    s.rename_activity(s.referred_activity(*reference).unwrap(), name@)
                );
                abiding::lemma_referred_activity(s, *reference);
                abiding::law_renaming_keeps_whole(
                    s,
                    s.referred_activity(*reference).unwrap(),
                    name@,
                );
            }
        }
        let r = self.do_rename_activity(reference, name);
        if r.is_ok() {
            self.mend();
        }
        r
    }

    /// Removes the declared activities that are not among `names`, with the empty workspaces that
    /// belong to them alone. If one of them is in use nothing changes.
    pub fn reconcile_activities_on_reload_remove(&mut self, names: &Vec<String>) -> (r: Result<
        (),
        ReloadActivityRemovalError,
    >)
        requires
            old(self)@.whole(),
            old(self)@.leavers(texts(names@)).len() > 0 && old(self)@.removal_refusal(
                old(self)@.leavers(texts(names@)),
            ) is None ==> old(self)@.remove_activities(
                old(self)@.leavers(texts(names@)),
            ).mended().fits(),
        ensures
            ({
                let gone = old(self)@.leavers(texts(names@));
                match r {
                    Ok(_) => if gone.len() == 0 {
                        final(self)@ == old(self)@
                    } else {
                        old(self)@.removal_refusal(gone) is None && final(self)@ == old(
                            self)@.remove_activities(gone).mended()
                    },
                    Err(e) => gone.len() > 0 && old(self)@.removal_refusal(gone) == Some(e@)
                        && final(self)@ == old(self)@,
                }
            }),
            final(self)@.whole(),
            old(self)@.orderly() && old(self)@.free_to_remove_all(
                old(self)@.leavers(texts(names@)),
            ) ==> final(self)@.orderly(),
    {
        proof {
            let s = self@;
            wholeness::law_mending_is_idle(s);
            if s.leavers(texts(names@)).len() == 0 || s.removal_refusal(
                s.leavers(texts(names@))
            ) is None {
                lemma_mended_leads(
                    if s.leavers(texts(names@)).len() == 0 { s } else {
                        s.remove_activities(s.leavers(texts(names@)))
                    }
                );
                let gone = s.leavers(texts(names@));
                if gone.len() > 0 {
                    abiding::lemma_leavers(s, texts(names@));
                    abiding::law_removing_activities_keeps_whole(s, gone);
                } else {
                }
            }
        }
        let r = self.do_reconcile_activities_on_reload_remove(names);
        if r.is_ok() {
            self.mend();
        }
        r
    }

    /// Connects `output`. `leading` says whether its views begin with an empty workspace, where
    /// that differs from the layout as a whole.
    ///
    /// The workspaces that are routed to the output move to it. Every activity gets a view of it.
    /// What an activity showed there when the output went away, and is still routed there, stands
    /// there again in the same order.
    pub fn add_output(&mut self, output: Output, leading: Option<bool>)
        requires
            old(self)@.whole(),
            output.id.0 != 0,
            forall|k: int|
                0 <= k < old(self)@.monitors.len() ==> apart(
                    (#[trigger] old(self)@.monitors[k]).output,
                    output,
                ),
            old(self)@.connect(output, leading).fits(),
        ensures
            final(self)@ == old(self)@.connect(output, leading),
            final(self)@.whole(),
            old(self)@.mindful() ==> final(self)@.mindful(),
            old(self)@.orderly() ==> final(self)@.orderly(),
    {
        proof {
            let s = self@;
            lemma_mended_leads(
                s.add_output(output, leading).reinstate(
                    output,
                    s.standings(),
                    s.monitors.len() == 0,
                ).forget_strips(output.connector),
            );
            outages::lemma_connect(s, output, leading);
        }
        let orders = self.standings();
        let first = self.monitors.len() == 0;
        let ghost before = self@;
        self.do_add_output(output, leading);
        assert(self@.acts.list.len() == self@.acts.ids().len());
        assert(before.acts.list.len() == before.acts.ids().len());
        assert(orders@.len() == order_models(orders@).len());
        assert(before.standings().len() == before.acts.list.len());
        self.reinstate(&output, &orders, first);
        self.forget_strips(output.connector);
        self.mend();
    }

    /// Disconnects the monitor for output `output`.
    ///
    /// Its workspaces with windows or a name move to the other monitors, or are parked if this was
    /// the last one; they keep the output as their routing hint. Empty ones that nothing else shows
    /// are destroyed. What each activity showed on the output is remembered until it is back.
    pub fn remove_output(&mut self, output: OutputId)
        requires
            old(self)@.whole(),
            old(self)@.monitor_pos(output) is Some,
            old(self)@.disconnect(old(self)@.monitor_pos(output).unwrap()).fits(),
        ensures
            final(self)@ == old(self)@.disconnect(old(self)@.monitor_pos(output).unwrap()),
            final(self)@.whole(),
            old(self)@.mindful() ==> final(self)@.mindful(),
            old(self)@.orderly() ==> final(self)@.orderly(),
    {
        let idx: usize = match self.monitor_idx(output) {
            Some(i) => i,
            None => {
                return;
            },
        };
        proof {
            let s = self@;
            lemma_mended_leads(s.note_strips(idx as int).remove_output(idx as int));
            outages::lemma_disconnect(s, idx as int);
        }
        self.note_strips(idx);
        self.do_remove_output(output);
        self.mend();
    }

    /// Brings the views in agreement with membership, whatever they show: every activity shows what
    /// belongs to it and nothing else.
    pub fn reconcile_views_with_membership(&mut self)
        requires
            old(self)@.staffed(),
            lists_once(old(self)@.pool),
            old(self)@.outputs_apart(),
            old(self)@.monitors.len() > 0,
            old(self)@.reconcile().mended().fits(),
        ensures
            final(self)@ == old(self)@.reconcile().mended(),
            final(self)@.whole(),
            old(self)@.mindful() ==> final(self)@.mindful(),
            old(self)@.orderly() ==> final(self)@.orderly(),
    {
        proof {
            let s = self@;
            lemma_mended_leads(s.reconcile());
            abiding::law_reconciling_agrees(s);
        }
        self.do_reconcile_views_with_membership();
        self.mend();
    }
}

} // verus!
