use jiji_layout::ids::{ActivityId, OutputId, WindowId, WorkspaceId};
use jiji_layout::layout::{Layout, Options};
use jiji_layout::windows::{ActivateWindow, AddWindowTarget};
use jiji_layout::workspace::{Output, SizingMode, Tile, Window};

fn plain() -> Options {
    Options { empty_workspace_above_first: false, animate_activity_switch: false }
}

fn output(n: u64) -> Output {
    Output { id: OutputId(n), connector: OutputId(n) }
}

fn tile(n: u64) -> Tile {
    Tile {
        window: Window {
            id: WindowId(n),
            parent: None,
            urgent: false,
            pending_sizing_mode: SizingMode::Normal,
            windowed_fullscreen: false,
        },
        column: WindowId(n),
        floating: false,
    }
}

fn shown(l: &Layout, out: u64) -> Vec<WorkspaceId> {
    let act: ActivityId = l.activities.active;
    match l.view_for(act, OutputId(out)) {
        Some(v) => v.ids().clone(),
        None => Vec::new(),
    }
}

fn home(l: &Layout, w: u64) -> Option<WorkspaceId> {
    l.home_of(WindowId(w))
}

fn one_output() -> Layout {
    let mut l = Layout::with_options(plain());
    l.add_output(output(1), None);
    l
}

fn two_outputs() -> Layout {
    let mut l = one_output();
    l.add_output(output(2), None);
    l
}

fn open(l: &mut Layout, w: u64) -> Option<Output> {
    l.add_window(tile(w), AddWindowTarget::Auto, ActivateWindow::Yes)
}

#[test]
fn reconnecting_brings_a_lone_output_back() {
    let mut l = one_output();
    assert!(l.verify_invariants());
    assert_eq!(open(&mut l, 1), Some(output(1)));
    assert!(l.verify_invariants());
    let before = shown(&l, 1);
    l.remove_output(OutputId(1));
    assert_eq!(l.disconnected_workspace_ids, vec![before[0]]);
    assert!(l.verify_invariants());
    l.add_output(output(1), None);
    let after = shown(&l, 1);
    assert_eq!(after[0], before[0]);
    assert_eq!(after.len(), 2);
    assert!(l.verify_invariants());
}

#[test]
fn reconnecting_brings_one_of_several_outputs_back() {
    let mut l = two_outputs();
    l.add_window(tile(1), AddWindowTarget::Output(OutputId(1)), ActivateWindow::Yes);
    l.add_window(tile(2), AddWindowTarget::Output(OutputId(2)), ActivateWindow::Yes);
    l.move_to_workspace_down(true);
    l.add_window(tile(3), AddWindowTarget::Output(OutputId(2)), ActivateWindow::Yes);
    let (one, two) = (home(&l, 1).unwrap(), home(&l, 3).unwrap());
    let before = shown(&l, 2);
    l.remove_output(OutputId(2));
    assert_eq!(l.outputs(), vec![output(1)]);
    assert!(shown(&l, 1).contains(&two));
    assert_eq!(l.find_window_and_output(WindowId(3)), Some(None));
    assert_eq!(l.output_for_workspace(two), Some(output(1)));
    assert!(l.verify_invariants());
    l.add_output(output(2), None);
    let after = shown(&l, 2);
    assert!(after.contains(&two));
    assert!(!shown(&l, 1).contains(&two));
    assert!(shown(&l, 1).contains(&one));
    let busy = |ids: &Vec<WorkspaceId>| -> Vec<WorkspaceId> {
        ids.iter().copied().filter(|w| l.workspaces.is_busy(*w)).collect()
    };
    assert_eq!(busy(&after), busy(&before));
    assert!(l.verify_invariants());
}

#[test]
fn disconnecting_loses_no_window() {
    let mut l = two_outputs();
    l.add_window(tile(1), AddWindowTarget::Output(OutputId(1)), ActivateWindow::Yes);
    l.add_window(tile(2), AddWindowTarget::Output(OutputId(2)), ActivateWindow::Yes);
    l.remove_output(OutputId(1));
    assert_eq!(l.outputs(), vec![output(2)]);
    let mut all = l.windows();
    all.sort_by_key(|w| w.0);
    assert_eq!(all, vec![WindowId(1), WindowId(2)]);
    assert!(l.verify_invariants());
    l.remove_output(OutputId(2));
    assert_eq!(l.monitors.len(), 0);
    assert_eq!(l.windows_all().len(), 2);
    assert!(l.verify_invariants());
}

#[test]
fn connecting_leaves_other_outputs_alone() {
    let mut l = two_outputs();
    l.add_window(tile(1), AddWindowTarget::Output(OutputId(1)), ActivateWindow::Yes);
    l.add_window(tile(2), AddWindowTarget::Output(OutputId(2)), ActivateWindow::Yes);
    let before = (shown(&l, 1), shown(&l, 2));
    l.add_output(output(3), None);
    assert_eq!((shown(&l, 1), shown(&l, 2)), before);
    assert_eq!(shown(&l, 3).len(), 1);
    assert!(l.verify_invariants());
}

#[test]
fn the_first_output_takes_everything_in() {
    let mut l = Layout::with_options(plain());
    open(&mut l, 1);
    let parked = l.disconnected_workspace_ids.clone();
    l.add_output(output(5), None);
    assert_eq!(shown(&l, 5)[0], parked[0]);
    assert!(l.disconnected_workspace_ids.is_empty());
    assert_eq!(l.workspaces.get(parked[0]).unwrap().bound, Some(OutputId(5)));
    assert!(l.verify_invariants());
}

#[test]
fn a_leading_empty_workspace_can_be_asked_for() {
    let mut l = Layout::with_options(Options {
        empty_workspace_above_first: true,
        animate_activity_switch: false,
    });
    l.add_output(output(1), None);
    assert_eq!(shown(&l, 1).len(), 1);
    assert!(l.leads_with_empty(OutputId(1)));
    open(&mut l, 1);
    assert_eq!(shown(&l, 1).len(), 3);
    assert_eq!(home(&l, 1), Some(shown(&l, 1)[1]));
    assert!(l.verify_invariants());
    l.add_output(output(2), Some(false));
    assert!(!l.leads_with_empty(OutputId(2)));
    assert!(l.verify_invariants());
}

#[test]
fn repairing_a_sound_layout_changes_nothing() {
    let mut l = two_outputs();
    open(&mut l, 1);
    let before = (shown(&l, 1), shown(&l, 2), l.workspaces_all());
    l.repair_view_pool_coherence();
    assert_eq!((shown(&l, 1), shown(&l, 2), l.workspaces_all()), before);
    assert!(l.verify_invariants());
    l.reconcile_views_with_membership();
    assert_eq!((shown(&l, 1), shown(&l, 2), l.workspaces_all()), before);
    assert_eq!(l.normalize_view_bookends(), 0);
}

#[test]
fn invariant_violations_are_noticed() {
    let mut l = one_output();
    assert!(l.verify_invariants());
    l.active_monitor_idx = 4;
    assert!(!l.verify_invariants());
    l.active_monitor_idx = 0;
    assert!(l.verify_invariants());
    let stray = shown(&l, 1)[0];
    l.workspaces.remove(stray);
    assert!(!l.verify_invariants());
}

#[test]
fn a_view_of_a_lost_workspace_is_repaired() {
    let mut l = one_output();
    open(&mut l, 1);
    let v = shown(&l, 1);
    l.workspaces.remove(v[1]);
    assert!(!l.verify_invariants());
    l.repair_view_pool_coherence();
    assert!(!shown(&l, 1).contains(&v[1]));
    assert_eq!(shown(&l, 1)[0], v[0]);
    l.normalize_view_bookends();
    assert!(l.verify_invariants());
}
