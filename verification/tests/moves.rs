use jiji_layout::ids::{ActivityId, OutputId, WindowId, WorkspaceId};
use jiji_layout::layout::{Layout, Options};
use jiji_layout::lookup::WorkspaceReference;
use jiji_layout::moves::{
    resolve_insert_target, BookendResolution, MoveWindowToPoolError, MoveWindowToPoolOutcome,
};
use jiji_layout::windows::{ActivateWindow, AddWindowTarget};
use jiji_layout::workspace::{Output, SizingMode, Tile, Window};

fn plain() -> Options {
    Options { empty_workspace_above_first: false, animate_activity_switch: false }
}

fn output(n: u64) -> Output {
    Output { id: OutputId(n), connector: OutputId(n) }
}

fn tile(n: u64) -> Tile {
    Tile {
        window: Window {
            id: WindowId(n),
            parent: None,
            urgent: false,
            pending_sizing_mode: SizingMode::Normal,
            windowed_fullscreen: false,
        },
        column: WindowId(n),
        floating: false,
    }
}

fn shown(l: &Layout, out: u64) -> Vec<WorkspaceId> {
    let act: ActivityId = l.activities.active;
    match l.view_for(act, OutputId(out)) {
        Some(v) => v.ids().clone(),
        None => Vec::new(),
    }
}

fn home(l: &Layout, w: u64) -> Option<WorkspaceId> {
    l.home_of(WindowId(w))
}

fn one_output() -> Layout {
    let mut l = Layout::with_options(plain());
    l.add_output(output(1), None);
    l
}

fn two_outputs() -> Layout {
    let mut l = one_output();
    l.add_output(output(2), None);
    l
}

fn open(l: &mut Layout, w: u64) -> Option<Output> {
    l.add_window(tile(w), AddWindowTarget::Auto, ActivateWindow::Yes)
}

#[test]
fn insert_targets_reuse_the_empty_ends() {
    assert_eq!(resolve_insert_target(true, 0, 3), BookendResolution::ReuseTop);
    assert_eq!(resolve_insert_target(false, 0, 3), BookendResolution::InsertAt(0));
    assert_eq!(resolve_insert_target(false, 1, 3), BookendResolution::InsertAt(1));
    assert_eq!(resolve_insert_target(false, 2, 3), BookendResolution::ReuseTrailing);
    assert_eq!(resolve_insert_target(true, 9, 3), BookendResolution::ReuseTrailing);
}

#[test]
fn a_window_moves_down_and_up() {
    let mut l = one_output();
    open(&mut l, 1);
    open(&mut l, 2);
    let start = home(&l, 2).unwrap();
    l.move_to_workspace_down(true);
    let below = home(&l, 2).unwrap();
    assert_ne!(start, below);
    assert_eq!(shown(&l, 1)[..2], [start, below]);
    assert_eq!(shown(&l, 1).len(), 3);
    assert_eq!(l.active_workspace_id(), Some(below));
    assert_eq!(home(&l, 1), Some(start));
    assert!(l.verify_invariants());
    l.move_to_workspace_up(true);
    assert_eq!(home(&l, 2), Some(start));
    assert_eq!(l.active_workspace_id(), Some(start));
    assert!(l.verify_invariants());
}

#[test]
fn without_focus_the_view_stays() {
    let mut l = one_output();
    open(&mut l, 1);
    open(&mut l, 2);
    let start = home(&l, 2).unwrap();
    l.move_to_workspace_down(false);
    assert_eq!(l.active_workspace_id(), Some(start));
    assert_ne!(home(&l, 2), Some(start));
    assert!(l.verify_invariants());
}

#[test]
fn a_window_moves_to_a_new_workspace() {
    let mut l = one_output();
    open(&mut l, 1);
    open(&mut l, 2);
    let start = home(&l, 2).unwrap();
    l.move_to_new_workspace_up(true);
    let above = home(&l, 2).unwrap();
    assert_eq!(shown(&l, 1)[..2], [above, start]);
    assert_eq!(l.active_workspace_id(), Some(above));
    assert!(l.verify_invariants());
    l.activate_window(WindowId(1));
    open(&mut l, 3);
    l.move_to_new_workspace_down(true);
    let below = home(&l, 3).unwrap();
    assert_ne!(below, start);
    assert!(l.verify_invariants());
}

#[test]
fn a_window_moves_to_an_index() {
    let mut l = one_output();
    open(&mut l, 1);
    open(&mut l, 2);
    let trailing = shown(&l, 1)[1];
    l.move_to_workspace(Some(WindowId(1)), 1, ActivateWindow::No);
    assert_eq!(home(&l, 1), Some(trailing));
    assert_eq!(shown(&l, 1).len(), 3);
    assert!(l.verify_invariants());
}

#[test]
fn a_window_moves_to_an_output() {
    let mut l = two_outputs();
    open(&mut l, 1);
    let there = shown(&l, 2)[0];
    l.move_to_output(None, OutputId(2), None, ActivateWindow::Yes);
    assert_eq!(home(&l, 1), Some(there));
    assert_eq!(l.active_output(), Some(output(2)));
    assert_eq!(shown(&l, 1).len(), 2);
    assert_eq!(shown(&l, 2).len(), 2);
    assert!(l.verify_invariants());
}

#[test]
fn a_column_moves_as_a_whole() {
    let mut l = two_outputs();
    open(&mut l, 1);
    let mut t = tile(2);
    t.column = WindowId(1);
    l.add_window(t, AddWindowTarget::NextTo(WindowId(1)), ActivateWindow::Yes);
    let id = home(&l, 1).unwrap();
    let together = {
        let w = l.workspaces.get(id).unwrap();
        w.tiles[0].column == w.tiles[1].column
    };
    l.move_column_to_output(OutputId(2), None, true);
    let there = shown(&l, 2)[0];
    assert_eq!(home(&l, 2), Some(there));
    assert_eq!(home(&l, 1) == Some(there), together);
    assert_eq!(l.active_output(), Some(output(2)));
    assert!(l.verify_invariants());
    l.move_column_to_workspace_down(true);
    assert_ne!(home(&l, 2), Some(there));
    assert!(l.verify_invariants());
    l.move_column_to_workspace_up(true);
    assert!(l.verify_invariants());
    l.move_column_to_workspace(5, false);
    assert!(l.verify_invariants());
}

#[test]
fn a_window_moves_to_a_workspace_of_another_activity() {
    let mut l = one_output();
    open(&mut l, 1);
    open(&mut l, 2);
    let a = l.create_activity("a".to_string()).unwrap();
    let there = l.view_for(a, OutputId(1)).unwrap().id_at(0);
    let here = home(&l, 1).unwrap();
    assert_eq!(
        l.move_window_to_pool_workspace(Some(WindowId(1)), 99, ActivateWindow::No),
        Err(MoveWindowToPoolError::TargetUnreachable)
    );
    assert_eq!(
        l.move_window_to_pool_workspace(Some(WindowId(1)), here.get(), ActivateWindow::No),
        Ok(MoveWindowToPoolOutcome::DelegateToActiveView)
    );
    assert_eq!(
        l.move_window_to_pool_workspace(Some(WindowId(9)), there.get(), ActivateWindow::No),
        Ok(MoveWindowToPoolOutcome::NothingToMove)
    );
    assert_eq!(home(&l, 1), Some(here));
    assert_eq!(
        l.move_window_to_pool_workspace(Some(WindowId(1)), there.get(), ActivateWindow::No),
        Ok(MoveWindowToPoolOutcome::MovedDormant { ws_id: there })
    );
    assert_eq!(home(&l, 1), Some(there));
    assert_eq!(l.windows(), vec![WindowId(2)]);
    assert!(l.verify_invariants());
}

#[test]
fn workspaces_sink_and_rise() {
    let mut l = one_output();
    open(&mut l, 1);
    open(&mut l, 2);
    l.move_to_workspace_down(true);
    let v = shown(&l, 1);
    l.move_workspace_up();
    assert_eq!(shown(&l, 1)[..2], [v[1], v[0]]);
    assert_eq!(l.active_workspace_id(), Some(v[1]));
    assert!(l.verify_invariants());
    l.move_workspace_down();
    assert_eq!(shown(&l, 1)[..2], [v[0], v[1]]);
    assert!(l.verify_invariants());
    l.move_workspace_to_idx(None, 0);
    assert_eq!(shown(&l, 1)[..2], [v[1], v[0]]);
    assert!(l.verify_invariants());
}

#[test]
fn a_workspace_moves_to_another_output() {
    let mut l = two_outputs();
    open(&mut l, 1);
    let id = home(&l, 1).unwrap();
    assert!(l.move_workspace_to_output(OutputId(2)));
    assert!(shown(&l, 2).contains(&id));
    assert!(!shown(&l, 1).contains(&id));
    assert_eq!(l.output_for_workspace(id), Some(output(2)));
    assert_eq!(l.active_output(), Some(output(2)));
    assert!(l.verify_invariants());
    let pos = l.find_workspace_by_id(id).unwrap();
    l.focus_output(OutputId(1));
    l.move_workspace_to_output_by_id(pos, Some(OutputId(2)), OutputId(1));
    assert!(shown(&l, 1).contains(&id));
    assert!(l.verify_invariants());
}

#[test]
fn views_are_switched_by_place() {
    let mut l = one_output();
    open(&mut l, 1);
    let v = shown(&l, 1);
    l.switch_workspace(1);
    assert_eq!(l.active_workspace_id(), Some(v[1]));
    l.switch_workspace_previous();
    assert_eq!(l.active_workspace_id(), Some(v[0]));
    l.switch_workspace_down();
    assert_eq!(l.active_workspace_id(), Some(v[1]));
    l.switch_workspace_down();
    assert_eq!(l.active_workspace_id(), Some(v[1]));
    l.switch_workspace_up();
    assert_eq!(l.active_workspace_id(), Some(v[0]));
    l.switch_workspace_auto_back_and_forth(0);
    assert_eq!(l.active_workspace_id(), Some(v[1]));
    l.switch_workspace(7);
    assert_eq!(l.active_workspace_id(), Some(v[1]));
}

#[test]
fn names_are_taken_away_from_others() {
    let mut l = one_output();
    open(&mut l, 1);
    let v = shown(&l, 1);
    l.set_workspace_name("mail".to_string(), None);
    assert_eq!(l.find_workspace_by_name("MAIL"), Some((0, v[0])));
    assert_eq!(l.workspaces.get(v[0]).unwrap().name, Some("mail".to_string()));
    l.set_workspace_name("Mail".to_string(), Some(WorkspaceReference::Index(2)));
    assert_eq!(l.find_workspace_by_name("mail").map(|p| p.1), Some(v[0]));
    assert_eq!(l.workspaces.get(v[1]).unwrap().name, None);
    l.set_workspace_name("notes".to_string(), Some(WorkspaceReference::Index(2)));
    assert_eq!(shown(&l, 1).len(), 3);
    assert!(l.verify_invariants());
    l.unname_workspace("NOTES");
    assert_eq!(l.find_workspace_by_name("notes"), None);
    assert_eq!(shown(&l, 1).len(), 2);
    assert!(l.verify_invariants());
    l.unset_workspace_name(None);
    assert_eq!(l.find_workspace_by_name("mail"), None);
    assert!(l.verify_invariants());
}

#[test]
fn new_workspaces_are_added_beside_the_active_one() {
    let mut l = one_output();
    open(&mut l, 1);
    let v = shown(&l, 1);
    l.add_workspace_up();
    let up = shown(&l, 1);
    assert_eq!(up[1], v[0]);
    assert_eq!(up.len(), 3);
    l.add_workspace_down();
    assert!(shown(&l, 1).contains(&v[0]));
}

#[test]
fn the_other_output_is_the_fallback() {
    let mut l = two_outputs();
    open(&mut l, 1);
    l.focus_output(OutputId(1));
    assert!(!l.focus_window_up_or_output(true, OutputId(2)));
    assert_eq!(l.active_output(), Some(output(1)));
    assert!(l.focus_window_up_or_output(false, OutputId(2)));
    assert_eq!(l.active_output(), Some(output(2)));
    assert!(l.focus_column_left_or_output(false, OutputId(1)));
    assert_eq!(l.active_output(), Some(output(1)));
    assert!(l.move_column_left_or_to_output(false, OutputId(2)));
    assert_eq!(home(&l, 1), Some(shown(&l, 2)[0]));
    assert!(l.verify_invariants());
}

#[test]
fn the_next_workspace_is_the_fallback() {
    let mut l = one_output();
    open(&mut l, 1);
    open(&mut l, 2);
    let v = shown(&l, 1);
    l.focus_window_or_workspace_down(true);
    assert_eq!(l.active_workspace_id(), Some(v[0]));
    l.focus_window_or_workspace_down(false);
    assert_eq!(l.active_workspace_id(), Some(v[1]));
    l.focus_window_or_workspace_up(false);
    assert_eq!(l.active_workspace_id(), Some(v[0]));
    l.move_down_or_to_workspace_down(true);
    assert_eq!(home(&l, 2), Some(v[0]));
    l.move_down_or_to_workspace_down(false);
    assert_eq!(home(&l, 2), Some(v[1]));
    l.move_up_or_to_workspace_up(false);
    assert_eq!(home(&l, 2), Some(v[0]));
    assert!(l.verify_invariants());
}
