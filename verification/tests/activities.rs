use jiji_layout::config::{Config, WorkspaceDecl};
use jiji_layout::errors::{
    ActivitySwitchBlock, AddWorkspaceToActivityError, CreateActivityError,
    MoveWorkspaceToActivityError, RemoveActivityError, RemoveWorkspaceFromActivityError,
    RenameActivityError, SetWorkspaceActivitiesError, WorkspaceStickyError,
};
use jiji_layout::gestures::Reached;
use jiji_layout::ids::{ActivityId, OutputId, WindowId, WorkspaceId};
use jiji_layout::layout::{Layout, Options};
use jiji_layout::lookup::{ActivityReferenceArg, WorkspaceReference};
use jiji_layout::membership::ToggleWorkspaceStickyOutcome;
use jiji_layout::windows::{ActivateWindow, AddWindowTarget};
use jiji_layout::workspace::{Output, SizingMode, Tile, Window};

fn plain() -> Options {
    Options { empty_workspace_above_first: false, animate_activity_switch: false }
}

fn output(n: u64) -> Output {
    Output { id: OutputId(n), connector: OutputId(n) }
}

fn tile(n: u64) -> Tile {
    Tile {
        window: Window {
            id: WindowId(n),
            parent: None,
            urgent: false,
            pending_sizing_mode: SizingMode::Normal,
            windowed_fullscreen: false,
        },
        column: WindowId(n),
        floating: false,
    }
}

fn named(name: &str) -> ActivityReferenceArg {
    ActivityReferenceArg::Name(name.to_string())
}

fn view(l: &Layout, act: ActivityId, out: u64) -> Vec<WorkspaceId> {
    match l.view_for(act, OutputId(out)) {
        Some(v) => v.ids().clone(),
        None => Vec::new(),
    }
}

fn decl(name: &str, activities: &[&str], sticky: bool) -> WorkspaceDecl {
    WorkspaceDecl {
        name: name.to_string(),
        activities: activities.iter().map(|s| s.to_string()).collect(),
        sticky,
        open_on_output: None,
    }
}

fn one_output() -> Layout {
    let mut l = Layout::with_options(plain());
    l.add_output(output(1), None);
    l
}

#[test]
fn a_layout_without_config_has_one_activity() {
    let l = Layout::with_options(plain());
    assert_eq!(l.activities.list.len(), 1);
    assert_eq!(l.activities.list[0].name, "Default");
    assert_eq!(l.activities.active, l.activities.list[0].id);
    assert_eq!(l.activities.previous, None);
    assert!(l.verify_invariants());
}

#[test]
fn declared_workspaces_belong_to_their_activities() {
    let l = Layout::new(&Config {
        activities: vec!["Work".to_string(), "Play".to_string()],
        workspaces: vec![
            decl("mail", &["Work"], false),
            decl("music", &[], true),
            decl("misc", &["nowhere"], false),
        ],
        options: plain(),
    });
    let work = l.activities.list[0].id;
    let play = l.activities.list[1].id;
    assert_eq!(l.activities.active, work);
    assert_eq!(l.workspaces.items.len(), 3);
    let acts = |name: &str| -> Vec<ActivityId> {
        for w in &l.workspaces.items {
            if w.is_called(name) {
                return w.activities.clone();
            }
        }
        Vec::new()
    };
    assert_eq!(acts("mail"), vec![work]);
    assert_eq!(acts("music"), vec![work, play]);
    assert_eq!(acts("misc"), vec![work]);
    assert!(l.verify_invariants());
}

#[test]
fn created_activities_get_a_view_of_every_output() {
    let mut l = one_output();
    l.add_output(output(2), None);
    let a = l.create_activity("Work".to_string()).unwrap();
    assert_eq!(view(&l, a, 1).len(), 1);
    assert_eq!(view(&l, a, 2).len(), 1);
    assert!(l.activities.contains(a));
    assert_ne!(l.activities.active, a);
    assert!(l.verify_invariants());
}

#[test]
fn names_are_checked_on_creation() {
    let mut l = one_output();
    assert_eq!(l.create_activity("  ".to_string()), Err(CreateActivityError::EmptyName));
    assert_eq!(l.create_activity(String::new()), Err(CreateActivityError::EmptyName));
    assert!(l.create_activity("Work".to_string()).is_ok());
    assert_eq!(l.create_activity("wORK".to_string()), Err(CreateActivityError::DuplicateName));
    assert_eq!(l.activities.list.len(), 2);
}

#[test]
fn switching_there_and_back_shows_the_same() {
    let mut l = one_output();
    l.add_window(tile(1), AddWindowTarget::Auto, ActivateWindow::Yes);
    let first = l.activities.active;
    let second = l.create_activity("Work".to_string()).unwrap();
    let before = view(&l, first, 1);
    l.switch_activity(second);
    assert_eq!(l.activities.active, second);
    assert_eq!(l.activities.previous, Some(first));
    assert!(l.windows().is_empty());
    assert_eq!(l.windows_all(), vec![WindowId(1)]);
    assert!(l.verify_invariants());
    l.switch_activity_previous(1);
    assert_eq!(l.activities.active, first);
    assert_eq!(view(&l, first, 1), before);
    assert_eq!(l.windows(), vec![WindowId(1)]);
    assert!(l.verify_invariants());
}

#[test]
fn recent_activities_are_found_by_depth() {
    let mut l = one_output();
    let first = l.activities.active;
    let second = l.create_activity("b".to_string()).unwrap();
    let third = l.create_activity("c".to_string()).unwrap();
    l.switch_activity(second);
    l.switch_activity(third);
    assert_eq!(l.recent_activity(1), Some(second));
    assert_eq!(l.recent_activity(2), Some(first));
    assert_eq!(l.recent_activity(3), Some(first));
    assert_eq!(l.recent_activity(0), None);
    l.switch_activity_previous(2);
    assert_eq!(l.activities.active, first);
    assert!(l.verify_invariants());
}

#[test]
fn removed_activities_take_their_empty_workspaces_along() {
    let mut l = one_output();
    let first = l.activities.active;
    let a = l.create_activity("Work".to_string()).unwrap();
    let gone = view(&l, a, 1);
    l.switch_activity(a);
    assert!(l.remove_activity(&named("Work")).is_ok());
    assert_eq!(l.activities.active, first);
    assert!(!l.activities.contains(a));
    assert!(!l.workspaces.contains(gone[0]));
    assert!(l.verify_invariants());
}

#[test]
fn removals_are_refused_with_a_reason() {
    let mut l = Layout::new(&Config {
        activities: vec!["Work".to_string()],
        workspaces: Vec::new(),
        options: plain(),
    });
    l.add_output(output(1), None);
    assert_eq!(l.remove_activity(&named("nope")), Err(RemoveActivityError::NotFound));
    assert_eq!(l.remove_activity(&named("Work")), Err(RemoveActivityError::ConfigDeclared));
    let a = l.create_activity("b".to_string()).unwrap();
    l.switch_activity(a);
    l.add_window(tile(1), AddWindowTarget::Auto, ActivateWindow::Yes);
    assert_eq!(
        l.remove_activity(&ActivityReferenceArg::Id(a.get())),
        Err(RemoveActivityError::ExclusiveWorkspaceHasWindows)
    );
    l.remove_window(WindowId(1));
    l.set_workspace_name("keep".to_string(), None);
    assert_eq!(
        l.remove_activity(&ActivityReferenceArg::Id(a.get())),
        Err(RemoveActivityError::ExclusiveNamedWorkspace)
    );
    l.unset_workspace_name(None);
    assert!(l.remove_activity(&ActivityReferenceArg::Id(a.get())).is_ok());
    let mut lone = one_output();
    assert_eq!(lone.remove_activity(&named("Default")), Err(RemoveActivityError::LastRemaining));
}

#[test]
fn renaming_changes_the_name_alone() {
    let mut l = one_output();
    let a = l.create_activity("Work".to_string()).unwrap();
    let b = l.create_activity("Play".to_string()).unwrap();
    assert_eq!(l.rename_activity(&named("x"), "y".to_string()), Err(RenameActivityError::NotFound));
    assert_eq!(l.rename_activity(&named("Work"), " ".to_string()), Err(RenameActivityError::EmptyName));
    assert_eq!(
        l.rename_activity(&named("Work"), "PLAY".to_string()),
        Err(RenameActivityError::DuplicateName)
    );
    assert!(l.rename_activity(&named("Work"), "WORK".to_string()).is_ok());
    assert_eq!(l.resolve_activity_ref(&named("Work")), None);
    assert_eq!(l.resolve_activity_ref(&named("WORK")), Some(a));
    assert_eq!(l.activities.get(a).unwrap().name, "WORK");
    assert_eq!(l.activities.get(b).unwrap().name, "Play");
    let mut c = Layout::new(&Config {
        activities: vec!["Work".to_string()],
        workspaces: Vec::new(),
        options: plain(),
    });
    assert_eq!(
        c.rename_activity(&named("Work"), "y".to_string()),
        Err(RenameActivityError::ConfigDeclared)
    );
}

#[test]
fn a_shared_workspace_is_shown_by_both_activities() {
    let mut l = one_output();
    l.add_window(tile(1), AddWindowTarget::Auto, ActivateWindow::Yes);
    let first = l.activities.active;
    let a = l.create_activity("Work".to_string()).unwrap();
    let ws = l.active_workspace_id().unwrap();
    assert_eq!(l.add_workspace_to_activity(None, &named("Work")), Ok((ws, a)));
    assert_eq!(l.workspaces.activities_of(ws), vec![first, a]);
    assert!(view(&l, a, 1).contains(&ws));
    assert!(view(&l, first, 1).contains(&ws));
    assert!(l.verify_invariants());
    assert_eq!(
        l.remove_workspace_from_activity(Some(WorkspaceReference::Id(ws.get())), &named("Work")),
        Ok((ws, a))
    );
    assert_eq!(l.workspaces.activities_of(ws), vec![first]);
    assert!(!view(&l, a, 1).contains(&ws));
    assert!(view(&l, first, 1).contains(&ws));
    assert!(l.verify_invariants());
}

#[test]
fn membership_errors_leave_everything_as_it_was() {
    let mut l = one_output();
    let ws = l.active_workspace_id().unwrap();
    let missing = Some(WorkspaceReference::Id(99));
    assert_eq!(
        l.add_workspace_to_activity(None, &named("x")),
        Err(AddWorkspaceToActivityError::ActivityNotFound)
    );
    assert_eq!(
        l.add_workspace_to_activity(missing.clone(), &named("Default")),
        Err(AddWorkspaceToActivityError::WorkspaceNotFound)
    );
    assert_eq!(
        l.remove_workspace_from_activity(None, &named("x")),
        Err(RemoveWorkspaceFromActivityError::ActivityNotFound)
    );
    assert_eq!(
        l.remove_workspace_from_activity(missing.clone(), &named("Default")),
        Err(RemoveWorkspaceFromActivityError::WorkspaceNotFound)
    );
    assert_eq!(
        l.remove_workspace_from_activity(None, &named("Default")),
        Err(RemoveWorkspaceFromActivityError::LastActivity)
    );
    assert_eq!(
        l.set_workspace_activities(None, &vec![named("x")]),
        Err(SetWorkspaceActivitiesError::ActivityNotFound)
    );
    assert_eq!(
        l.set_workspace_activities(None, &Vec::new()),
        Err(SetWorkspaceActivitiesError::EmptyActivityList)
    );
    assert_eq!(
        l.set_workspace_activities(missing.clone(), &vec![named("Default")]),
        Err(SetWorkspaceActivitiesError::WorkspaceNotFound)
    );
    assert_eq!(
        l.move_workspace_to_activity(None, &named("x")),
        Err(MoveWorkspaceToActivityError::ActivityNotFound)
    );
    assert_eq!(
        l.move_workspace_to_activity(missing.clone(), &named("Default")),
        Err(MoveWorkspaceToActivityError::WorkspaceNotFound)
    );
    assert_eq!(
        l.set_workspace_sticky(missing.clone()),
        Err(WorkspaceStickyError::WorkspaceNotFound)
    );
    assert_eq!(
        l.unset_workspace_sticky(missing.clone()),
        Err(WorkspaceStickyError::WorkspaceNotFound)
    );
    assert_eq!(l.toggle_workspace_sticky(missing), Err(WorkspaceStickyError::WorkspaceNotFound));
    let a = l.create_activity("b".to_string()).unwrap();
    let other = view(&l, a, 1)[0];
    assert_eq!(
        l.move_workspace_to_activity(Some(WorkspaceReference::Id(other.get())), &named("Default")),
        Err(MoveWorkspaceToActivityError::WorkspaceNotInActiveActivity)
    );
    assert_eq!(l.active_workspace_id(), Some(ws));
    assert!(l.verify_invariants());
}

#[test]
fn setting_activities_drops_repetitions() {
    let mut l = one_output();
    l.add_window(tile(1), AddWindowTarget::Auto, ActivateWindow::Yes);
    let first = l.activities.active;
    let a = l.create_activity("a".to_string()).unwrap();
    let b = l.create_activity("b".to_string()).unwrap();
    let ws = l.active_workspace_id().unwrap();
    let r = l.set_workspace_activities(None, &vec![named("a"), named("b"), ActivityReferenceArg::Id(a.get())]);
    assert_eq!(r, Ok((ws, vec![a, b], true)));
    assert_eq!(l.workspaces.activities_of(ws), vec![a, b]);
    assert!(!view(&l, first, 1).contains(&ws));
    assert!(view(&l, a, 1).contains(&ws));
    assert!(view(&l, b, 1).contains(&ws));
    assert!(l.windows().is_empty());
    assert!(l.verify_invariants());
}

#[test]
fn moving_to_an_activity_changes_sides() {
    let mut l = one_output();
    l.add_window(tile(1), AddWindowTarget::Auto, ActivateWindow::Yes);
    let first = l.activities.active;
    let a = l.create_activity("a".to_string()).unwrap();
    let ws = l.active_workspace_id().unwrap();
    assert_eq!(l.move_workspace_to_activity(None, &named("a")), Ok((ws, a, first)));
    assert_eq!(l.workspaces.activities_of(ws), vec![a]);
    assert!(view(&l, a, 1).contains(&ws));
    assert!(!view(&l, first, 1).contains(&ws));
    assert!(l.verify_invariants());
}

#[test]
fn sticky_workspaces_join_activities_to_come() {
    let mut l = one_output();
    l.add_window(tile(1), AddWindowTarget::Auto, ActivateWindow::Yes);
    let first = l.activities.active;
    let a = l.create_activity("a".to_string()).unwrap();
    let ws = l.active_workspace_id().unwrap();
    let r = l.toggle_workspace_sticky(None).unwrap();
    assert!(matches!(r, ToggleWorkspaceStickyOutcome::StickyOn { ws_id, .. } if ws_id == ws));
    assert_eq!(l.workspaces.activities_of(ws), vec![first, a]);
    let b = l.create_activity("b".to_string()).unwrap();
    assert_eq!(l.workspaces.activities_of(ws), vec![first, a, b]);
    assert!(view(&l, b, 1).contains(&ws));
    assert!(l.verify_invariants());
    let r = l.toggle_workspace_sticky(None).unwrap();
    assert!(matches!(r, ToggleWorkspaceStickyOutcome::StickyOff { ws_id } if ws_id == ws));
    assert_eq!(l.workspaces.activities_of(ws), vec![first, a, b]);
    let c = l.create_activity("c".to_string()).unwrap();
    assert!(!view(&l, c, 1).contains(&ws));
    assert!(l.verify_invariants());
}

#[test]
fn a_drag_blocks_switching() {
    let mut l = one_output();
    l.add_window(tile(1), AddWindowTarget::Auto, ActivateWindow::Yes);
    assert_eq!(l.is_activity_switch_hard_blocked(), None);
    l.dnd_update(output(1));
    assert_eq!(l.is_activity_switch_hard_blocked(), Some(ActivitySwitchBlock::Dnd));
    l.dnd_end();
    assert_eq!(l.is_activity_switch_hard_blocked(), None);
    l.workspace_switch_gesture_begin(OutputId(1), true, Reached { at: 0, between: false }, &vec![0]);
    assert_eq!(
        l.is_activity_switch_hard_blocked(),
        Some(ActivitySwitchBlock::WorkspaceSwitchGesture)
    );
}

#[test]
fn hidden_windows_pick_an_activity_of_their_workspace() {
    let mut l = one_output();
    let first = l.activities.active;
    l.add_window(tile(1), AddWindowTarget::Auto, ActivateWindow::Yes);
    let ws = l.active_workspace_id().unwrap();
    let a = l.create_activity("a".to_string()).unwrap();
    l.switch_activity(a);
    assert_eq!(l.pick_activity_for_hidden_window(ws, None), first);
    assert_eq!(l.pick_activity_for_hidden_window(ws, Some(first)), first);
    assert_eq!(l.window_ws_and_activity_hint(WindowId(1)), Some(ws));
    assert_eq!(l.is_wl_surface_on_active_activity(WindowId(1)), Some(false));
    assert_eq!(l.is_wl_surface_on_active_activity(WindowId(9)), None);
}
