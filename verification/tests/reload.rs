use jiji_layout::config::{resolve_workspace_activities_for, Config, WorkspaceDecl};
use jiji_layout::errors::ActivitySwitchBlock;
use jiji_layout::ids::{ActivityId, OutputId, WindowId, WorkspaceId};
use jiji_layout::layout::{Layout, Options};
use jiji_layout::reload::ReloadActivityRemovalError;
use jiji_layout::windows::{ActivateWindow, AddWindowTarget};
use jiji_layout::workspace::{Output, SizingMode, Tile, Window};

fn tile(n: u64) -> Tile {
    Tile {
        window: Window {
            id: WindowId(n),
            parent: None,
            urgent: false,
            pending_sizing_mode: SizingMode::Normal,
            windowed_fullscreen: false,
        },
        column: WindowId(n),
        floating: false,
    }
}

fn output(n: u64) -> Output {
    Output { id: OutputId(n), connector: OutputId(n) }
}

fn texts(names: &[&str]) -> Vec<String> {
    names.iter().map(|s| s.to_string()).collect()
}

fn decl(name: &str, activities: &[&str], sticky: bool) -> WorkspaceDecl {
    WorkspaceDecl {
        name: name.to_string(),
        activities: texts(activities),
        sticky,
        open_on_output: None,
    }
}

fn configured(names: &[&str]) -> Layout {
    let mut l = Layout::new(&Config {
        activities: texts(names),
        workspaces: Vec::new(),
        options: Options { empty_workspace_above_first: false, animate_activity_switch: false },
    });
    l.add_output(output(1), None);
    l
}

fn names(l: &Layout) -> Vec<String> {
    l.activities.list.iter().map(|a| a.name.clone()).collect()
}

#[test]
fn activities_that_left_the_configuration_are_removed() {
    let mut l = configured(&["Work", "Play"]);
    let play = l.activities.list[1].id;
    l.switch_activity(play);
    assert_eq!(l.reconcile_activities_on_reload_remove(&texts(&["Work"])), Ok(()));
    assert_eq!(names(&l), texts(&["Work"]));
    assert_eq!(l.activities.active, l.activities.list[0].id);
    assert!(l.verify_invariants());
    assert_eq!(l.reconcile_activities_on_reload_remove(&texts(&["WORK"])), Ok(()));
    assert_eq!(names(&l), texts(&["Work"]));
}

#[test]
fn removals_on_reload_are_all_or_nothing() {
    let mut l = configured(&["Work", "Play", "Rest"]);
    let play = l.activities.list[1].id;
    l.switch_activity(play);
    l.add_window(tile(1), AddWindowTarget::Auto, ActivateWindow::Yes);
    let ws = l.home_of(WindowId(1)).unwrap();
    assert_eq!(
        l.reconcile_activities_on_reload_remove(&texts(&["Work"])),
        Err(ReloadActivityRemovalError::ExclusiveWorkspaceHasWindows {
            activity_name: "Play".to_string(),
            workspace_id: ws,
        })
    );
    assert_eq!(names(&l), texts(&["Work", "Play", "Rest"]));
    l.remove_window(WindowId(1));
    assert!(matches!(
        l.reconcile_activities_on_reload_remove(&texts(&[])),
        Err(ReloadActivityRemovalError::WouldEmptyPool { .. })
    ));
    l.dnd_update(output(1));
    assert_eq!(
        l.reconcile_activities_on_reload_remove(&texts(&["Work"])),
        Err(ReloadActivityRemovalError::HardBlockedCascade {
            activity_name: "Play".to_string(),
            block: ActivitySwitchBlock::Dnd,
        })
    );
    l.dnd_end();
    assert_eq!(l.reconcile_activities_on_reload_remove(&texts(&["Work"])), Ok(()));
    assert!(l.verify_invariants());
}

#[test]
fn activities_that_joined_the_configuration_come_first() {
    let mut l = configured(&["Work"]);
    let runtime = l.create_activity("Own".to_string()).unwrap();
    l.reconcile_activities_on_reload_add(&texts(&["Play", "Work"]), &Vec::new());
    assert_eq!(names(&l), texts(&["Play", "Work", "Own"]));
    let play = l.activities.list[0].id;
    assert!(l.view_for(play, OutputId(1)).is_some());
    assert!(l.activities.get(play).unwrap().declared);
    assert!(!l.activities.get(runtime).unwrap().declared);
    assert!(l.verify_invariants());
}

#[test]
fn declared_workspaces_are_there_after_a_reload() {
    let mut l = configured(&["Work", "Play"]);
    let ids: Vec<ActivityId> = l.activities.list.iter().map(|a| a.id).collect();
    l.ensure_named_workspace(&decl("mail", &["Play"], false));
    let found = l.find_workspace_in_activity_by_name("MAIL", ids[1]).unwrap();
    assert_eq!(l.workspaces.get(found).unwrap().activities, vec![ids[1]]);
    assert_eq!(l.find_workspace_in_activity_by_name("mail", ids[0]), None);
    assert!(l.verify_invariants());
    l.ensure_named_workspace(&decl("notes", &["Work"], false));
    let n = l.workspaces.len();
    l.ensure_named_workspace(&decl("Notes", &["Work"], false));
    assert_eq!(l.workspaces.len(), n);
    l.reconcile_activities_on_reload_add(
        &texts(&["Work", "Play"]),
        &vec![decl("mail", &["Work", "Play"], false)],
    );
    assert_eq!(l.workspaces.get(found).unwrap().activities, vec![ids[0], ids[1]]);
    assert!(l.verify_invariants());
}

#[test]
fn declarations_resolve_to_activities() {
    let l = configured(&["Work", "Play"]);
    let ids: Vec<ActivityId> = l.activities.list.iter().map(|a| a.id).collect();
    let of = |d: &WorkspaceDecl| resolve_workspace_activities_for(&l.activities, d);
    assert_eq!(of(&decl("a", &["play", "WORK", "Play"], false)).len(), 2);
    assert!(of(&decl("a", &["play"], false)).contains(&ids[1]));
    assert_eq!(of(&decl("a", &[], true)), ids);
    assert_eq!(of(&decl("a", &[], false)), vec![ids[0]]);
    assert_eq!(of(&decl("a", &["nowhere"], false)), vec![ids[0]]);
}

#[test]
fn a_workspace_changes_its_activities_with_its_declaration() {
    let mut l = Layout::new(&Config {
        activities: texts(&["a", "b"]),
        workspaces: vec![decl("mail", &["a", "b"], false), decl("music", &[], true)],
        options: Options { empty_workspace_above_first: false, animate_activity_switch: false },
    });
    l.add_output(output(1), None);
    assert!(l.verify_invariants());
    let (a, b) = (l.activities.list[0].id, l.activities.list[1].id);
    let (mail, music) = (WorkspaceId(1), WorkspaceId(2));
    assert!(l.view_for(a, OutputId(1)).unwrap().contains(mail));
    assert!(l.view_for(b, OutputId(1)).unwrap().contains(mail));
    l.reconcile_activities_on_reload_add(
        &texts(&["c", "a", "b"]),
        &vec![decl("mail", &["b", "c"], false), decl("music", &[], true)],
    );
    assert!(l.verify_invariants());
    assert_eq!(names(&l), texts(&["c", "a", "b"]));
    let c = l.activities.list[0].id;
    for (act, has) in [(a, false), (b, true), (c, true)] {
        assert_eq!(l.view_for(act, OutputId(1)).unwrap().contains(mail), has);
        assert!(l.view_for(act, OutputId(1)).unwrap().contains(music));
    }
}

#[test]
fn a_shared_workspace_outlives_an_activity_that_left() {
    let mut l = Layout::new(&Config {
        activities: texts(&["a", "b"]),
        workspaces: vec![decl("mail", &["a", "b"], false), decl("own", &["a"], false)],
        options: Options { empty_workspace_above_first: false, animate_activity_switch: false },
    });
    l.add_output(output(1), None);
    let b = l.activities.list[1].id;
    assert_eq!(l.reconcile_activities_on_reload_remove(&texts(&["b"])), Ok(()));
    assert!(l.verify_invariants());
    assert_eq!(names(&l), texts(&["b"]));
    assert_eq!(l.activities.active, b);
    assert!(l.view_for(b, OutputId(1)).unwrap().contains(WorkspaceId(1)));
    assert!(!l.view_for(b, OutputId(1)).unwrap().contains(WorkspaceId(2)));
    assert!(l.workspaces.get(WorkspaceId(2)).is_none());
}
