use jiji_layout::config::{Config, WorkspaceDecl};
use jiji_layout::ids::{ActivityId, OutputId, WindowId, WorkspaceId};
use jiji_layout::interactive::{DragMotion, InsertWorkspace};
use jiji_layout::layout::{Layout, Options};
use jiji_layout::rendering::Drawn;
use jiji_layout::routing::{InsertHint, InsertPosition};
use jiji_layout::windows::{ActivateWindow, AddWindowTarget};
use jiji_layout::workspace::{Output, SizingMode, Tile, Window};

fn options(animated: bool) -> Options {
    Options { empty_workspace_above_first: false, animate_activity_switch: animated }
}

fn output(n: u64) -> Output {
    Output { id: OutputId(n), connector: OutputId(n) }
}

fn tile(n: u64) -> Tile {
    Tile {
        window: Window {
            id: WindowId(n),
            parent: None,
            urgent: false,
            pending_sizing_mode: SizingMode::Normal,
            windowed_fullscreen: false,
        },
        column: WindowId(n),
        floating: false,
    }
}

fn two_outputs(animated: bool) -> Layout {
    let mut l = Layout::with_options(options(animated));
    l.add_output(output(1), None);
    l.add_output(output(2), None);
    l
}

fn open_on(l: &mut Layout, w: u64, out: u64) -> WorkspaceId {
    l.add_window(tile(w), AddWindowTarget::Output(OutputId(out)), ActivateWindow::Yes);
    l.home_of(WindowId(w)).unwrap()
}

fn shown(l: &Layout, act: ActivityId, out: u64) -> Vec<WorkspaceId> {
    match l.view_for(act, OutputId(out)) {
        Some(v) => v.ids().clone(),
        None => Vec::new(),
    }
}

fn drag(l: &mut Layout, w: u64, out: u64, over: WorkspaceId) {
    assert!(l.interactive_move_begin(WindowId(w), OutputId(out)));
    assert!(l.interactive_move_update(
        WindowId(w),
        DragMotion {
            output: output(out),
            far: true,
            floats: false,
            configured: false,
            over: Some(over),
        },
    ));
}

#[test]
fn a_drag_hints_at_where_it_would_drop() {
    let mut l = two_outputs(false);
    let id = open_on(&mut l, 1, 2);
    open_on(&mut l, 2, 2);
    let there = InsertWorkspace::Existing(id);
    let gap = InsertWorkspace::NewAt(1);
    let column = InsertPosition::InColumn(0, 1);
    assert_eq!(l.update_insert_hint(None, there, column), None);
    drag(&mut l, 1, 2, id);
    assert_eq!(
        l.update_insert_hint(None, there, column),
        Some((1, InsertHint { workspace: there, position: column }))
    );
    assert_eq!(
        l.update_insert_hint(Some(OutputId(2)), gap, column),
        Some((1, InsertHint { workspace: gap, position: InsertPosition::NewColumn(0) }))
    );
    assert_eq!(l.update_insert_hint(Some(OutputId(1)), there, column), None);
}

#[test]
fn commands_go_to_the_workspace_of_the_window() {
    let mut l = two_outputs(false);
    let one = open_on(&mut l, 1, 1);
    let two = open_on(&mut l, 2, 2);
    assert_eq!(l.toggle_window_width(Some(WindowId(1))), Some(one));
    assert_eq!(l.set_window_height(None), Some(two));
    assert_eq!(l.center_window(Some(WindowId(9))), None);
    assert_eq!(l.toggle_fullscreen(WindowId(2)), Some(two));
    assert_eq!(l.store_unmap_snapshot(WindowId(1)), Some(one));
    drag(&mut l, 1, 1, one);
    assert_eq!(l.toggle_window_width(Some(WindowId(1))), None);
    assert_eq!(l.toggle_window_width(None), None);
    assert_eq!(l.toggle_fullscreen(WindowId(1)), None);
    assert_eq!(l.store_unmap_snapshot(WindowId(1)), None);
    assert_eq!(l.toggle_window_width(Some(WindowId(2))), Some(two));
}

#[test]
fn only_the_focused_monitor_is_drawn_as_such() {
    let mut l = two_outputs(false);
    let one = open_on(&mut l, 1, 1);
    open_on(&mut l, 2, 2);
    let r = l.update_render_elements(None);
    assert_eq!(r.dragged, None);
    assert_eq!(
        r.monitors,
        vec![
            Drawn { monitor: 0, is_active: false },
            Drawn { monitor: 1, is_active: true },
        ]
    );
    assert_eq!(r.outgoing, vec![]);
    let r = l.update_render_elements(Some(OutputId(1)));
    assert_eq!(r.monitors, vec![Drawn { monitor: 0, is_active: false }]);
    drag(&mut l, 1, 1, one);
    let r = l.update_render_elements(Some(OutputId(2)));
    assert_eq!(r.dragged, None);
    assert_eq!(r.monitors, vec![Drawn { monitor: 1, is_active: false }]);
    assert_eq!(l.update_render_elements(None).dragged, Some(WindowId(1)));
    assert_eq!(l.interactive_moved_window(OutputId(1)), Some(WindowId(1)));
    assert_eq!(l.interactive_moved_window(OutputId(2)), None);
}

#[test]
fn what_slides_out_is_drawn_too() {
    let mut l = two_outputs(true);
    let first = l.activities.active;
    open_on(&mut l, 1, 1);
    let second = l.create_activity("Work".to_string()).unwrap();
    l.switch_activity(second);
    let (one, two) = (shown(&l, first, 1), shown(&l, first, 2));
    let both: Vec<WorkspaceId> = one.iter().chain(two.iter()).copied().collect();
    assert_eq!(l.update_render_elements(None).outgoing, both);
    assert_eq!(l.update_render_elements(Some(OutputId(2))).outgoing, two);
}

#[test]
fn named_workspaces_find_their_declarations() {
    let decl = |name: &str| WorkspaceDecl {
        name: name.to_string(),
        activities: vec![],
        sticky: false,
        open_on_output: None,
    };
    let mut l = Layout::new(&Config {
        activities: vec![],
        workspaces: vec![decl("chat"), decl("mail")],
        options: options(false),
    });
    let entries = l.update_config(&Config {
        activities: vec![],
        workspaces: vec![decl("Chat"), decl("mail"), decl("mail")],
        options: options(true),
    });
    assert_eq!(entries, vec![(WorkspaceId(2), 1)]);
    assert!(l.options.animate_activity_switch);
}

#[test]
fn dormant_activities_find_their_workspaces_on_a_returning_output() {
    let mut l = two_outputs(false);
    let first = l.activities.active;
    let here = open_on(&mut l, 1, 2);
    let second = l.create_activity("Work".to_string()).unwrap();
    l.switch_activity(second);
    let there = open_on(&mut l, 2, 2);
    open_on(&mut l, 3, 1);
    l.switch_activity(first);
    l.remove_output(OutputId(2));
    assert!(!shown(&l, second, 2).contains(&there));
    assert!(l.verify_invariants());
    l.add_output(output(2), None);
    assert!(l.verify_invariants());
    assert!(shown(&l, first, 2).contains(&here));
    assert!(!shown(&l, first, 1).contains(&here));
    assert!(shown(&l, second, 2).contains(&there));
    assert!(!shown(&l, second, 1).contains(&there));
}

#[test]
fn dormant_activities_find_their_workspaces_on_the_first_output() {
    let mut l = Layout::with_options(options(false));
    l.add_output(output(1), None);
    let first = l.activities.active;
    let here = open_on(&mut l, 1, 1);
    let second = l.create_activity("Work".to_string()).unwrap();
    l.switch_activity(second);
    let there = open_on(&mut l, 2, 1);
    l.remove_output(OutputId(1));
    assert_eq!(l.disconnected_workspace_ids, vec![there, here]);
    l.add_output(output(1), None);
    assert!(l.verify_invariants());
    assert!(shown(&l, first, 1).contains(&here));
    assert!(!shown(&l, first, 1).contains(&there));
    assert!(shown(&l, second, 1).contains(&there));
    assert!(!shown(&l, second, 1).contains(&here));
    assert_eq!(l.disconnected_workspace_ids, vec![]);
}
