use jiji_layout::ids::{ActivityId, OutputId, WindowId, WorkspaceId};
use jiji_layout::layout::{Layout, Options};
use jiji_layout::listing::Located;
use jiji_layout::windows::{ActivateWindow, AddWindowTarget};
use jiji_layout::workspace::{Output, SizingMode, Tile, Window};

fn plain() -> Options {
    Options { empty_workspace_above_first: false, animate_activity_switch: false }
}

fn output(n: u64) -> Output {
    Output { id: OutputId(n), connector: OutputId(n) }
}

fn tile(n: u64) -> Tile {
    Tile {
        window: Window {
            id: WindowId(n),
            parent: None,
            urgent: false,
            pending_sizing_mode: SizingMode::Normal,
            windowed_fullscreen: false,
        },
        column: WindowId(n),
        floating: false,
    }
}

fn shown(l: &Layout, out: u64) -> Vec<WorkspaceId> {
    let act: ActivityId = l.activities.active;
    match l.view_for(act, OutputId(out)) {
        Some(v) => v.ids().clone(),
        None => Vec::new(),
    }
}

fn home(l: &Layout, w: u64) -> Option<WorkspaceId> {
    l.home_of(WindowId(w))
}

fn one_output() -> Layout {
    let mut l = Layout::with_options(plain());
    l.add_output(output(1), None);
    l
}

fn two_outputs() -> Layout {
    let mut l = one_output();
    l.add_output(output(2), None);
    l
}

fn open(l: &mut Layout, w: u64) -> Option<Output> {
    l.add_window(tile(w), AddWindowTarget::Auto, ActivateWindow::Yes)
}

#[test]
fn an_added_window_is_found_where_it_was_put() {
    let mut l = two_outputs();
    let there = shown(&l, 2)[0];
    let o = l.add_window(tile(1), AddWindowTarget::Output(OutputId(2)), ActivateWindow::No);
    assert_eq!(o, Some(output(2)));
    assert_eq!(home(&l, 1), Some(there));
    assert_eq!(l.find_window_and_output(WindowId(1)), Some(Some(output(2))));
    assert_eq!(l.find_window_and_output(WindowId(9)), None);
    assert!(l.has_window(WindowId(1)));
    assert_eq!(shown(&l, 2).len(), 2);
    assert!(l.verify_invariants());
    let o = l.add_window(tile(2), AddWindowTarget::Workspace(there), ActivateWindow::No);
    assert_eq!(o, Some(output(2)));
    assert_eq!(home(&l, 2), Some(there));
    let o = l.add_window(tile(3), AddWindowTarget::NextTo(WindowId(1)), ActivateWindow::No);
    assert_eq!(o, Some(output(2)));
    assert_eq!(home(&l, 3), Some(there));
    assert!(l.verify_invariants());
}

#[test]
fn a_removed_window_is_gone() {
    let mut l = one_output();
    open(&mut l, 1);
    open(&mut l, 2);
    let t = l.remove_window(WindowId(1)).unwrap();
    assert_eq!(t.window.id, WindowId(1));
    assert!(!l.has_window(WindowId(1)));
    assert_eq!(l.windows_all(), vec![WindowId(2)]);
    assert_eq!(l.remove_window(WindowId(1)), None);
    assert!(l.verify_invariants());
}

#[test]
fn the_last_window_takes_a_passive_workspace_along() {
    let mut l = one_output();
    open(&mut l, 1);
    let first = shown(&l, 1)[0];
    l.switch_workspace_down();
    l.workspace_switch_gesture_end(None, 0);
    l.monitors[0].workspace_switch = None;
    l.remove_window(WindowId(1));
    assert!(!shown(&l, 1).contains(&first));
    assert!(!l.workspaces.contains(first));
    assert_eq!(shown(&l, 1).len(), 1);
    assert!(l.verify_invariants());
}

#[test]
fn without_outputs_windows_go_to_a_parked_workspace() {
    let mut l = Layout::with_options(plain());
    let o = open(&mut l, 1);
    assert_eq!(o, None);
    assert_eq!(l.disconnected_workspace_ids.len(), 1);
    assert_eq!(home(&l, 1), Some(l.disconnected_workspace_ids[0]));
    assert_eq!(l.find_window_and_output(WindowId(1)), Some(None));
    assert!(l.verify_invariants());
    l.add_output(output(1), None);
    assert!(l.disconnected_workspace_ids.is_empty());
    assert_eq!(l.resident_workspace(WindowId(1)), home(&l, 1));
    assert_eq!(shown(&l, 1)[0], home(&l, 1).unwrap());
    assert!(l.verify_invariants());
}

#[test]
fn focus_follows_activation() {
    let mut l = two_outputs();
    l.add_window(tile(1), AddWindowTarget::Output(OutputId(1)), ActivateWindow::Yes);
    l.add_window(tile(2), AddWindowTarget::Output(OutputId(2)), ActivateWindow::Yes);
    assert_eq!(l.focus(), Some(WindowId(2)));
    assert_eq!(l.focus_with_output(), Some((WindowId(2), output(2))));
    l.activate_window(WindowId(1));
    assert_eq!(l.focus_with_output(), Some((WindowId(1), output(1))));
    l.focus_output(OutputId(2));
    assert_eq!(l.focus(), Some(WindowId(2)));
    assert_eq!(l.active_output(), Some(output(2)));
    assert!(l.should_trigger_focus_follows_mouse_on(WindowId(1)));
}

#[test]
fn activation_is_decided_lazily() {
    assert!(ActivateWindow::Yes.map_smart(|| false));
    assert!(!ActivateWindow::No.map_smart(|| true));
    assert!(ActivateWindow::Smart.map_smart(|| true));
    assert!(!ActivateWindow::Smart.map_smart(|| false));
    assert!(ActivateWindow::Smart.decide(true));
    assert!(!ActivateWindow::Smart.decide(false));
}

#[test]
fn windows_are_listed_with_their_place() {
    let mut l = two_outputs();
    l.add_window(tile(1), AddWindowTarget::Output(OutputId(1)), ActivateWindow::Yes);
    l.add_window(tile(2), AddWindowTarget::Output(OutputId(2)), ActivateWindow::Yes);
    let a = Located {
        window: WindowId(1),
        output: Some(output(1)),
        workspace: home(&l, 1),
    };
    let b = Located {
        window: WindowId(2),
        output: Some(output(2)),
        workspace: home(&l, 2),
    };
    assert_eq!(l.with_windows(), vec![a, b]);
    assert_eq!(l.windows_for_output(&output(2)), vec![WindowId(2)]);
    let other = l.create_activity("b".to_string()).unwrap();
    l.switch_activity(other);
    assert!(l.with_windows().is_empty());
    assert_eq!(l.with_windows_all().len(), 2);
    assert!(l.with_windows_all().contains(&b));
    assert!(l.windows_for_output(&output(2)).is_empty());
}

#[test]
fn parked_windows_are_listed_without_an_output() {
    let mut l = Layout::with_options(plain());
    open(&mut l, 1);
    let w = home(&l, 1);
    let at = Located { window: WindowId(1), output: None, workspace: w };
    assert_eq!(l.with_windows(), vec![at]);
    assert_eq!(l.with_windows_all(), vec![at]);
    assert_eq!(l.latency_debug_counts(), (1, 0, 1));
}

#[test]
fn workspaces_are_listed_by_activity_and_output() {
    let mut l = two_outputs();
    let first = l.activities.active;
    assert_eq!(l.workspaces_with_activity(first, OutputId(1)), shown(&l, 1));
    assert_eq!(l.workspaces_with_activity(first, OutputId(2)), shown(&l, 2));
    assert_eq!(l.workspaces_with_activity(first, OutputId(3)), Vec::new());
    let all = l.workspaces_all();
    assert_eq!(all.len(), 2);
    assert!(all.contains(&(Some(OutputId(1)), shown(&l, 1)[0])));
    assert_eq!(l.workspaces().len(), 2);
    assert_eq!(l.latency_debug_counts(), (2, 2, 0));
    assert_eq!(l.outputs(), vec![output(1), output(2)]);
}

#[test]
fn urgency_is_a_matter_of_the_activity() {
    let mut l = one_output();
    let first = l.activities.active;
    let other = l.create_activity("b".to_string()).unwrap();
    open(&mut l, 1);
    assert!(!l.activity_is_urgent(first));
    let mut t = tile(2);
    t.window.urgent = true;
    l.add_window(t, AddWindowTarget::Auto, ActivateWindow::No);
    assert!(l.activity_is_urgent(first));
    assert!(!l.activity_is_urgent(other));
}

#[test]
fn commands_go_to_the_workspace_of_their_window() {
    let mut l = two_outputs();
    l.add_window(tile(1), AddWindowTarget::Output(OutputId(1)), ActivateWindow::Yes);
    l.add_window(tile(2), AddWindowTarget::Output(OutputId(2)), ActivateWindow::Yes);
    assert_eq!(l.command_workspace(None), home(&l, 2));
    assert_eq!(l.command_workspace(Some(WindowId(1))), home(&l, 1));
    assert_eq!(l.command_workspace(Some(WindowId(7))), None);
    assert_eq!(l.resident_workspace(WindowId(1)), home(&l, 1));
    assert_eq!(l.update_window(WindowId(1)), home(&l, 1));
    assert_eq!(l.update_window(WindowId(7)), None);
    assert_eq!(l.interactive_resize_begin(WindowId(2)), home(&l, 2));
    assert_eq!(l.interactive_resize_update(WindowId(2)), home(&l, 2));
    assert_eq!(l.interactive_resize_end(WindowId(2)), home(&l, 2));
}

#[test]
fn sizing_modes_tell_themselves_apart() {
    assert!(SizingMode::Normal.is_normal());
    assert!(!SizingMode::Normal.is_fullscreen());
    assert!(SizingMode::Fullscreen.is_fullscreen());
    assert!(!SizingMode::Fullscreen.is_maximized());
    assert!(SizingMode::Maximized.is_maximized());
    assert!(!SizingMode::Maximized.is_normal());
}

#[test]
fn outputs_are_matched_by_id_or_connector() {
    let mut l = one_output();
    let id = shown(&l, 1)[0];
    open(&mut l, 1);
    let w = l.workspaces.get(id).unwrap();
    assert_eq!(w.bound, Some(OutputId(1)));
    assert!(w.has_windows());
    assert!(w.has_windows_or_name());
}
