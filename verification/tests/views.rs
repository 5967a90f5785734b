use jiji_layout::bookmarks::{Bookmark, Bookmarks};
use jiji_layout::disconnect::first_occurrences;
use jiji_layout::ids::{ActivityId, OutputId, WindowId, WorkspaceId};
use jiji_layout::layout::{Layout, Options};
use jiji_layout::lookup::{
    ActivityReferenceArg, FocusWorkspaceInActivityError, WorkspaceReference,
};
use jiji_layout::membership::dedup;
use jiji_layout::view::WorkspaceView;
use jiji_layout::workspace::Output;

fn ids(ns: &[u64]) -> Vec<WorkspaceId> {
    ns.iter().map(|n| WorkspaceId(*n)).collect()
}

fn one_output() -> Layout {
    let mut l = Layout::with_options(Options {
        empty_workspace_above_first: false,
        animate_activity_switch: false,
    });
    l.add_output(Output { id: OutputId(1), connector: OutputId(1) }, None);
    l
}

#[test]
fn a_view_remembers_what_was_active() {
    let mut v = WorkspaceView::new(ids(&[1, 2, 3]), 0);
    assert_eq!(v.active(), WorkspaceId(1));
    assert_eq!(v.previous(), None);
    v.activate(2);
    assert_eq!(v.active(), WorkspaceId(3));
    assert_eq!(v.previous(), Some(WorkspaceId(1)));
    assert_eq!(v.active_position(), 2);
    assert_eq!(v.position_of(WorkspaceId(2)), Some(1));
    assert_eq!(v.position_of(WorkspaceId(9)), None);
    assert!(v.contains(WorkspaceId(3)));
}

#[test]
fn a_view_is_rearranged() {
    let mut v = WorkspaceView::new(ids(&[1, 2, 3]), 1);
    v.insert(1, WorkspaceId(4));
    assert_eq!(*v.ids(), ids(&[1, 4, 2, 3]));
    assert_eq!(v.active(), WorkspaceId(2));
    v.swap(0, 3);
    assert_eq!(*v.ids(), ids(&[3, 4, 2, 1]));
    v.move_within(0, 2);
    assert_eq!(*v.ids(), ids(&[4, 2, 3, 1]));
    assert_eq!(v.active(), WorkspaceId(2));
    assert_eq!(v.remove_at(0), WorkspaceId(4));
    assert_eq!(*v.ids(), ids(&[2, 3, 1]));
    assert_eq!(v.len(), 3);
    assert_eq!(v.id_at(1), WorkspaceId(3));
}

#[test]
fn repetitions_are_dropped_in_order() {
    assert_eq!(first_occurrences(&ids(&[3, 1, 3, 2, 1])), ids(&[3, 1, 2]));
    assert_eq!(
        dedup(&vec![ActivityId(2), ActivityId(2), ActivityId(1)]),
        vec![ActivityId(2), ActivityId(1)]
    );
}

#[test]
fn bookmarks_forget_closed_windows() {
    let mark = |id: u64, w: u64, rule: bool| Bookmark {
        id,
        window: Some(WindowId(w)),
        rule,
        key: None,
    };
    let mut b = Bookmarks::new();
    assert_eq!(b.next_id, 1);
    b.list = vec![mark(1, 5, false), mark(2, 5, true), mark(3, 6, false)];
    b.walk_cursor = Some(2);
    b.return_target = Some(WindowId(5));
    b.prune_window(WindowId(5));
    assert_eq!(b.list.len(), 2);
    assert_eq!(b.list[0], Bookmark { id: 2, window: None, rule: true, key: None });
    assert_eq!(b.list[1], mark(3, 6, false));
    assert_eq!(b.walk_cursor, None);
    assert_eq!(b.return_target, None);
}

#[test]
fn workspaces_are_found_by_reference() {
    let mut l = one_output();
    l.set_workspace_name("Mail".to_string(), None);
    let id = l.active_workspace_id().unwrap();
    let second = l.view_for(l.activities.active, OutputId(1)).unwrap().id_at(1);
    assert_eq!(l.find_workspace_by_ref(&WorkspaceReference::Id(id.get())), Some(id));
    assert_eq!(l.find_workspace_by_ref(&WorkspaceReference::Index(1)), Some(id));
    assert_eq!(l.find_workspace_by_ref(&WorkspaceReference::Index(0)), Some(id));
    assert_eq!(l.find_workspace_by_ref(&WorkspaceReference::Index(2)), Some(second));
    assert_eq!(l.find_workspace_by_ref(&WorkspaceReference::Index(9)), None);
    let mail = WorkspaceReference::Name("mAIL".to_string());
    assert_eq!(l.find_workspace_by_ref(&mail), Some(id));
    assert_eq!(l.find_workspace_by_ref(&WorkspaceReference::Name("x".to_string())), None);
    assert_eq!(l.resolve_workspace_ref_or_active(&None), Some(id));
    assert_eq!(l.resolve_workspace_id(id.get()), Some(id));
    assert_eq!(l.resolve_workspace_id(99), None);
    let act = l.activities.active;
    assert_eq!(l.resolve_workspace_in_activity(act, &mail), Ok(id));
    assert_eq!(
        l.resolve_workspace_in_activity(act, &WorkspaceReference::Index(1)),
        Err(FocusWorkspaceInActivityError::IndexUnsupported)
    );
    let other = l.create_activity("b".to_string()).unwrap();
    assert_eq!(
        l.resolve_workspace_in_activity(other, &mail),
        Err(FocusWorkspaceInActivityError::WorkspaceNotInActivity)
    );
    assert_eq!(
        l.resolve_activity_ref(&ActivityReferenceArg::Id(other.get())),
        Some(other)
    );
    assert_eq!(l.monitor_for_workspace("mail").map(|m| m.output.id), Some(OutputId(1)));
    assert_eq!(
        l.monitor_for_workspace_in_activity("mail", act),
        Some(0)
    );
    assert!(l.monitor_for_workspace_in_activity("mail", other).is_none());
    assert_eq!(l.monitor_for_output(OutputId(1)).map(|m| m.output_id()), Some(OutputId(1)));
    assert!(l.monitor_for_output(OutputId(2)).is_none());
}
